use vortexwall::config::AppConfig;
use vortexwall::daemon::{
    protected_notice, read_allowlist, startup_command, Daemon, Verdict, ALLOWLIST_WARNING,
};
use vortexwall::ip::IpAddr;
use vortexwall::nft::setup;
use vortexwall::time::{Duration, Instant};

fn ip(text: &str) -> IpAddr {
    IpAddr::parse(text).unwrap()
}

fn secs(n: u64) -> Instant {
    Instant::at(Duration::from_secs(n))
}

fn daemon(threshold: usize, dry_run: bool) -> Daemon {
    let cfg = AppConfig { threshold, window_secs: 10, ban_secs: 60, ..AppConfig::builtin() };
    Daemon::new(&cfg, vec![ip("203.0.113.9"), ip("2001:db8::9")], dry_run)
}

#[test]
fn threshold_failures_within_the_window_lead_to_a_ban() {
    let mut d = daemon(3, false);
    assert!(matches!(d.observe(ip("198.51.100.7"), secs(0)), Verdict::Counted));
    assert!(matches!(d.observe(ip("198.51.100.7"), secs(5)), Verdict::Counted));
    match d.observe(ip("198.51.100.7"), secs(10)) {
        Verdict::Ban(command) => assert_eq!(
            command.stdin.unwrap(),
            "add element inet vortexwall blackhole { 198.51.100.7 timeout 60s }"
        ),
        _ => panic!("not banned"),
    }
    // the count starts anew
    assert!(matches!(d.observe(ip("198.51.100.7"), secs(10)), Verdict::Counted));
    assert!(matches!(d.observe(ip("198.51.100.7"), secs(10)), Verdict::Counted));
    assert!(matches!(d.observe(ip("198.51.100.7"), secs(10)), Verdict::Ban(_)));
}

#[test]
fn spread_failures_do_not_add_up() {
    let mut d = daemon(2, false);
    for n in 0..20 {
        assert!(matches!(d.observe(ip("198.51.100.7"), secs(n * 11)), Verdict::Counted));
    }
}

#[test]
fn protected_addresses_are_never_banned() {
    let mut d = daemon(1, false);
    for text in ["127.0.0.1", "10.0.0.1", "172.20.0.1", "192.168.0.1", "169.254.0.1", "::1", "fd00::1", "fe80::1"] {
        assert!(matches!(d.observe(ip(text), secs(1)), Verdict::Protected), "{text}");
    }
    assert!(matches!(d.observe(ip("8.8.8.8"), secs(1)), Verdict::Ban(_)));
}

#[test]
fn allowlisted_addresses_are_never_banned() {
    let mut d = daemon(1, false);
    assert!(matches!(d.observe(ip("203.0.113.9"), secs(1)), Verdict::Allowlisted));
    assert!(matches!(d.observe(ip("2001:db8::9"), secs(1)), Verdict::Allowlisted));
    assert!(matches!(d.observe(ip("203.0.113.8"), secs(1)), Verdict::Ban(_)));
    assert!(matches!(d.observe(ip("2001:db8::8"), secs(1)), Verdict::Ban(_)));
}

#[test]
fn a_dry_run_reports_and_touches_nothing() {
    let mut dry = daemon(2, true);
    let mut live = daemon(2, false);
    for n in 0..8 {
        let a = dry.observe(ip("198.51.100.7"), secs(n));
        let b = live.observe(ip("198.51.100.7"), secs(n));
        assert!(!matches!(a, Verdict::Ban(_)));
        assert_eq!(matches!(a, Verdict::WouldBan), matches!(b, Verdict::Ban(_)));
    }
    assert!(startup_command(true).is_none());
    assert_eq!(startup_command(false), Some(setup()));
}

#[test]
fn notices() {
    let d = daemon(5, false);
    let a = ip("198.51.100.7");
    assert_eq!(
        d.would_ban_notice(&a),
        "[DRY-RUN] would ban 198.51.100.7 for 60s (threshold 5 reached)"
    );
    assert_eq!(
        d.ban_report(&a, &Ok(())),
        Ok("[BANNED] 198.51.100.7 for 60s (threshold 5 reached)".to_string())
    );
    assert_eq!(
        d.ban_report(&a, &Err("boom".to_string())),
        Err("[ERROR] failed to ban 198.51.100.7: boom".to_string())
    );
    assert_eq!(
        protected_notice(&ip("::1")),
        "[protected] ::1 had an auth failure but is loopback/private — never a ban candidate"
    );
}

#[test]
fn allowlist_entries_that_are_no_addresses_are_ignored_with_a_warning() {
    let good = vec!["192.0.2.1".to_string(), "::1".to_string()];
    assert_eq!(read_allowlist(&good), (vec![ip("192.0.2.1"), ip("::1")], None));
    let bad = vec!["10.0.0.0/8".to_string(), "192.0.2.1".to_string()];
    assert_eq!(read_allowlist(&bad), (vec![ip("192.0.2.1")], Some(ALLOWLIST_WARNING)));
    assert_eq!(read_allowlist(&vec![]), (vec![], None));
}

#[test]
fn addresses_do_not_add_up() {
    let mut d = daemon(3, false);
    for n in 1..=200u8 {
        assert!(matches!(d.observe(IpAddr::V4([8, 8, 8, n]), secs(1)), Verdict::Counted));
        assert!(matches!(d.observe(IpAddr::V4([8, 8, 8, n]), secs(1)), Verdict::Counted));
    }
    for n in 1..=200u8 {
        assert!(matches!(d.observe(IpAddr::V4([8, 8, 8, n]), secs(2)), Verdict::Ban(_)));
    }
}

#[test]
fn failures_are_counted_from_the_last_ban_on() {
    let mut d = daemon(3, false);
    let mut bans = Vec::new();
    for n in 0..12 {
        if let Verdict::Ban(_) = d.observe(ip("198.51.100.7"), secs(n * 4)) {
            bans.push(n);
        }
    }
    // 0, 4 and 8 fit the window of ten seconds; then 12, 16 and 20; and so on
    assert_eq!(bans, vec![2, 5, 8, 11]);
}
