use vortexwall::detector::{
    extract_offender, first_offender, is_never_bannable, patterns, FailureTracker,
};
use vortexwall::ip::IpAddr;
use vortexwall::time::{Duration, Instant};

fn ip(text: &str) -> IpAddr {
    IpAddr::parse(text).unwrap()
}

fn secs(n: u64) -> Instant {
    Instant::at(Duration::from_secs(n))
}

#[test]
fn extracts_ip_from_failed_password() {
    let line = "sshd[1234]: Failed password for root from 198.51.100.7 port 51422 ssh2";
    assert_eq!(extract_offender(line), Some(ip("198.51.100.7")));
}

#[test]
fn extracts_ip_from_invalid_user() {
    let line = "sshd[1234]: Invalid user admin from 203.0.113.9 port 33000";
    assert_eq!(extract_offender(line), Some(ip("203.0.113.9")));
}

#[test]
fn extracts_ip_from_preauth_disconnect() {
    let line = "sshd[1234]: Connection closed by invalid user test 192.0.2.5 port 44000 [preauth]";
    assert_eq!(extract_offender(line), Some(ip("192.0.2.5")));
}

#[test]
fn matches_real_invalid_user_line() {
    let line = "Invalid user nonexistentuser123 from 127.0.0.1 port 51164";
    assert_eq!(extract_offender(line), Some(ip("127.0.0.1")));
}

#[test]
fn matches_real_preauth_disconnect_line() {
    let line = "Connection closed by invalid user nonexistentuser123 127.0.0.1 port 51164 [preauth]";
    assert_eq!(extract_offender(line), Some(ip("127.0.0.1")));
}

#[test]
fn ignores_unrelated_lines() {
    let line = "sshd[1234]: Accepted publickey for raven from 198.51.100.7 port 51422 ssh2";
    assert_eq!(extract_offender(line), None);
}

#[test]
fn extracts_ipv6_and_received_disconnect() {
    let line = "Received disconnect from 2001:db8::1 port 40000:11: Bye Bye [preauth]";
    assert_eq!(extract_offender(line), Some(IpAddr::V6([0x2001, 0xdb8, 0, 0, 0, 0, 0, 1])));
    let line = "Connection closed by authenticating user root 203.0.113.4 port 2 [preauth]";
    assert_eq!(extract_offender(line), Some(IpAddr::V4([203, 0, 113, 4])));
    let line = "Connection closed by 203.0.113.4 port 2 [preauth]";
    assert_eq!(extract_offender(line), Some(IpAddr::V4([203, 0, 113, 4])));
    let line = "Received disconnect from 203.0.113.4 port 2:11: disconnected by user";
    assert_eq!(extract_offender(line), None);
}

#[test]
fn later_patterns_are_tried_when_a_capture_is_no_address() {
    let line = "Invalid user x from 1.2.3 port 1, Connection closed by 203.0.113.8 port 5 [preauth]";
    assert_eq!(extract_offender(line), Some(ip("203.0.113.8")));
    let line = "Failed password for root from 300.1.1.1 port 22";
    assert_eq!(extract_offender(line), None);
}

#[test]
fn greedy_user_names_cannot_smuggle_an_address() {
    let line = "Failed password for from 10.0.0.1 port 1 from 203.0.113.8 port 22 ssh2";
    assert_eq!(extract_offender(line), Some(ip("203.0.113.8")));
}

#[test]
fn first_offender_passes_over_what_is_no_address() {
    let captures = vec![None, Some("deadbeef".to_string()), Some("192.0.2.1".to_string())];
    assert_eq!(first_offender(&captures), Some(ip("192.0.2.1")));
    assert_eq!(first_offender(&vec![None, Some("1.2.3".to_string())]), None);
    assert_eq!(first_offender(&Vec::new()), None);
    let both = vec![Some("192.0.2.2".to_string()), Some("192.0.2.1".to_string())];
    assert_eq!(first_offender(&both), Some(ip("192.0.2.2")));
}

#[test]
fn the_patterns_are_these() {
    assert_eq!(
        patterns(),
        vec![
            r"Failed password for .* from (?P<ip>[0-9a-fA-F:.]+) port \d+",
            r"Invalid user .* from (?P<ip>[0-9a-fA-F:.]+) port \d+",
            r"Connection closed by (?:invalid user .* |authenticating user .* )?(?P<ip>[0-9a-fA-F:.]+) port \d+ \[preauth\]",
            r"Received disconnect from (?P<ip>[0-9a-fA-F:.]+) port \d+:\d+:.*\[preauth\]",
        ]
    );
}

#[test]
fn loopback_and_private_ranges_never_bannable() {
    for text in ["127.0.0.1", "10.1.2.3", "172.16.5.5", "192.168.1.50", "169.254.1.1", "::1"] {
        assert!(is_never_bannable(&ip(text)), "{text} should be protected");
    }
    for text in ["198.51.100.7", "203.0.113.9", "8.8.8.8"] {
        assert!(!is_never_bannable(&ip(text)), "{text} should NOT be protected");
    }
}

#[test]
fn protected_ranges_end_where_they_end() {
    for text in [
        "127.255.255.255", "10.0.0.0", "10.255.255.255", "172.16.0.0", "172.31.255.255",
        "192.168.0.0", "169.254.0.0", "fc00::", "fdff:ffff::1",
        "fe80::1", "febf::1",
    ] {
        assert!(is_never_bannable(&ip(text)), "{text} should be protected");
    }
    for text in [
        "126.255.255.255", "128.0.0.0", "9.255.255.255", "11.0.0.0", "172.15.255.255",
        "172.32.0.0", "192.167.255.255", "192.169.0.0", "169.253.0.0", "169.255.0.0", "::",
        "::2", "fbff::1", "fe00::1", "fe7f::1", "fec0::1", "2001:db8::1",
    ] {
        assert!(!is_never_bannable(&ip(text)), "{text} should NOT be protected");
    }
}

#[test]
fn tracker_fires_exactly_once_at_threshold() {
    let mut tracker = FailureTracker::new(Duration::from_secs(600), 3);
    let ip = ip("198.51.100.7");
    let t0 = secs(1000);
    assert!(!tracker.record(ip, t0));
    assert!(!tracker.record(ip, t0));
    assert!(tracker.record(ip, t0)); // 3rd failure crosses threshold=3
    assert!(!tracker.record(ip, t0)); // 4th: already over, no re-fire
}

#[test]
fn tracker_prunes_outside_window() {
    let mut tracker = FailureTracker::new(Duration::from_secs(10), 2);
    let ip = ip("198.51.100.7");
    assert!(!tracker.record(ip, secs(1000)));
    // second failure long after the window closed: does not combine with the first
    assert!(!tracker.record(ip, secs(1000 + 30)));
}

#[test]
fn forget_resets_the_count() {
    let mut tracker = FailureTracker::new(Duration::from_secs(600), 2);
    let ip = ip("198.51.100.7");
    let t0 = secs(1000);
    assert!(!tracker.record(ip, t0)); // 1st, under threshold=2
    assert!(tracker.record(ip, t0)); // 2nd, crosses threshold=2
    tracker.forget(&ip);
    assert!(!tracker.record(ip, t0)); // restarted from zero: back to 1, under threshold
}

#[test]
fn a_failure_exactly_a_window_ago_still_counts() {
    let mut tracker = FailureTracker::new(Duration::from_secs(10), 2);
    let ip = ip("198.51.100.7");
    assert!(!tracker.record(ip, secs(100)));
    assert!(tracker.record(ip, secs(110)));
    tracker.forget(&ip);
    assert!(!tracker.record(ip, secs(200)));
    assert!(!tracker.record(ip, Instant::at(Duration::new(210, 1))));
}

#[test]
fn the_window_slides_and_fires_again_on_the_next_edge() {
    let mut tracker = FailureTracker::new(Duration::from_secs(10), 3);
    let ip = ip("2001:db8::7");
    assert!(!tracker.record(ip, secs(0)));
    assert!(!tracker.record(ip, secs(1)));
    assert!(tracker.record(ip, secs(2)));
    assert!(!tracker.record(ip, secs(3)));
    // 0 and 1 have left the window: two were left, this makes three again
    assert!(tracker.record(ip, Instant::at(Duration::new(11, 500_000_000))));
}

#[test]
fn addresses_are_counted_apart() {
    let mut tracker = FailureTracker::new(Duration::from_secs(10), 2);
    for text in ["0.0.0.1", "::1", "::1:0", "1::", "0.0.1.0", "::ffff:0.0.0.1"] {
        assert!(!tracker.record(ip(text), secs(5)), "{text}");
    }
    assert!(tracker.record(ip("::1"), secs(6)));
    tracker.forget(&ip("0.0.0.1"));
    assert!(tracker.record(ip("1::"), secs(6)));
    assert!(!tracker.record(ip("0.0.0.1"), secs(6)));
}

#[test]
fn a_clock_that_steps_back_expires_nothing() {
    let mut tracker = FailureTracker::new(Duration::from_secs(10), 2);
    assert!(!tracker.record(ip("192.0.2.1"), secs(100)));
    assert!(tracker.record(ip("192.0.2.1"), secs(50)));
}

#[test]
fn zero_threshold_never_fires() {
    let mut tracker = FailureTracker::new(Duration::from_secs(10), 0);
    assert!(!tracker.record(ip("192.0.2.1"), secs(1)));
    assert!(!tracker.record(ip("192.0.2.1"), secs(100)));
}

#[test]
fn durations_and_instants() {
    assert_eq!(Duration::new(7, 999_999_999).as_secs(), 7);
    let gap = secs(12).duration_since(&Instant::at(Duration::new(10, 1)));
    assert_eq!(gap.as_secs(), 1);
    assert!(!gap.exceeds(&Duration::new(1, 999_999_999)));
    assert!(gap.exceeds(&Duration::new(1, 999_999_998)));
    assert_eq!(secs(1).duration_since(&secs(5)).as_secs(), 0);
}

#[test]
fn a_user_name_cannot_forge_the_offender() {
    let users = [
        "root",
        "",
        "x from 192.0.2.1 port 1",
        "Failed password for x from 192.0.2.1 port 1 ssh2",
        "Invalid user y from 192.0.2.1 port 2",
        "Connection closed by 192.0.2.1 port 3 [preauth]",
        "\u{e9}\u{2014} \t from",
        " from",
    ];
    for address in ["203.0.113.8", "2001:db8::8", "::ffff:192.0.2.9", "::"] {
        for user in users {
            let line = format!("Failed password for {user} from {address} port 22 ssh2");
            assert_eq!(extract_offender(&line), Some(ip(address)), "{line}");
            let line = format!("Invalid user {user} from {address} port 65535");
            assert_eq!(extract_offender(&line), Some(ip(address)), "{line}");
            let line = format!("sshd[9]: Invalid user {user} from {address} port 0");
            assert_eq!(extract_offender(&line), Some(ip(address)), "{line}");
        }
    }
}

#[test]
fn an_offender_needs_a_phrase_an_address_and_a_port() {
    for line in [
        "",
        "from 203.0.113.8 port 22",
        "Accepted password for root from 203.0.113.8 port 22",
        "failed password for root from 203.0.113.8 port 22",
        "Failed password for root from 999.1.1.1 port 22",
        "Failed password for root from 203.0.113.8 port x",
        "Failed password for root from 203.0.113.8 port",
        "Failed password for root from 203.0.113.8, port 22",
        "Failed password for root\n from 203.0.113.8 port 22",
        "203.0.113.8 port 22 Invalid user x",
        "Connection closed by 203.0.113.8 port 22",
    ] {
        assert_eq!(extract_offender(line), None, "{line}");
    }
}

#[test]
fn a_decimal_digit_of_any_script_makes_a_port() {
    let line = "Invalid user x from 203.0.113.8 port \u{0665}";
    assert_eq!(extract_offender(line), Some(ip("203.0.113.8")));
}

#[test]
fn the_port_begins_with_a_decimal_digit() {
    let line = |c: char| format!("Invalid user x from 203.0.113.8 port {}", c);
    for c in ['0', '9', '\u{6f0}', '\u{96f}', '\u{ff19}', '\u{1d7ce}', '\u{116e3}', '\u{1fbf9}'] {
        assert_eq!(extract_offender(&line(c)), Some(ip("203.0.113.8")), "{:?}", c);
    }
    for c in ['/', ':', 'x', '\u{b2}', '\u{e9}', '\u{65f}', '\u{66a}', '\u{2460}', '\u{1fbfa}'] {
        assert_eq!(extract_offender(&line(c)), None, "{:?}", c);
    }
}
