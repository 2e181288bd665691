use vortexwall::command::{Invocation, Output};
use vortexwall::ip::IpAddr;
use vortexwall::nft::{
    ban, describe_failure, judge_teardown, list_banned, list_commands, nft_error, parse_listing,
    script_outcome, set_name, setup, stderr_of, teardown, teardown_outcome, unban,
};
use vortexwall::time::Duration;

fn ip(text: &str) -> IpAddr {
    IpAddr::parse(text).unwrap()
}

fn run(args: &[&str]) -> Invocation {
    Invocation {
        program: "nft".to_string(),
        args: args.iter().map(|a| a.to_string()).collect(),
        stdin: None,
    }
}

fn script(text: &str) -> Invocation {
    Invocation {
        program: "nft".to_string(),
        args: vec!["-f".to_string(), "-".to_string()],
        stdin: Some(text.to_string()),
    }
}

fn output(success: bool, stdout: &str, stderr: &str) -> Output {
    Output { success, stdout: stdout.as_bytes().to_vec(), stderr: stderr.as_bytes().to_vec() }
}

#[test]
fn set_name_picks_the_matching_family() {
    let v4 = ip("198.51.100.7");
    let v6 = ip("2001:db8::1");
    assert_eq!(set_name(&v4), "blackhole");
    assert_eq!(set_name(&v6), "blackhole6");
}

#[test]
fn setup_creates_everything() {
    assert_eq!(
        setup(),
        script(
            r#"
add table inet vortexwall
add set inet vortexwall blackhole { type ipv4_addr; flags timeout; }
add set inet vortexwall blackhole6 { type ipv6_addr; flags timeout; }
add chain inet vortexwall drop_blackholed { type filter hook prerouting priority -300; policy accept; }
flush chain inet vortexwall drop_blackholed
add rule inet vortexwall drop_blackholed ip saddr @blackhole drop
add rule inet vortexwall drop_blackholed ip6 saddr @blackhole6 drop
"#
        )
    );
}

#[test]
fn setup_can_be_repeated() {
    let text = setup().stdin.unwrap();
    let lines: Vec<&str> = text.split('\n').collect();
    assert_eq!(lines.len(), 9);
    assert_eq!((lines[0], lines[8]), ("", ""));
    let flush = "flush chain inet vortexwall drop_blackholed";
    let mut flushed = false;
    let mut rules: Vec<&str> = Vec::new();
    for line in &lines[1..8] {
        let words: Vec<&str> = line.split(' ').collect();
        assert_eq!(&words[2..4], ["inet", "vortexwall"]);
        if *line == flush {
            flushed = true;
            rules.clear();
        } else {
            assert_eq!(words[0], "add");
        }
        if words[1] == "rule" {
            assert!(flushed);
            assert_eq!(words[4], "drop_blackholed");
            rules.push(line);
        }
    }
    assert_eq!(rules.len(), 2);
    assert_eq!(setup(), setup());
}

#[test]
fn a_script_speaks_of_one_element() {
    for text in ["198.51.100.7", "2001:db8::1"] {
        let banned = ban(ip(text), Duration::from_secs(60)).stdin.unwrap();
        let words: Vec<&str> = banned.split(' ').collect();
        let set = set_name(&ip(text));
        assert_eq!(
            words,
            ["add", "element", "inet", "vortexwall", set, "{", text, "timeout", "60s", "}"]
        );
        let lifted = unban(ip(text)).stdin.unwrap();
        let words: Vec<&str> = lifted.split(' ').collect();
        assert_eq!(words, ["delete", "element", "inet", "vortexwall", set, "{", text, "}"]);
    }
}

#[test]
fn bans_and_unbans_go_to_the_set_of_the_family() {
    assert_eq!(
        ban(ip("198.51.100.7"), Duration::from_secs(3600)),
        script("add element inet vortexwall blackhole { 198.51.100.7 timeout 3600s }")
    );
    assert_eq!(
        ban(ip("2001:db8::1"), Duration::new(59, 999_999_999)),
        script("add element inet vortexwall blackhole6 { 2001:db8::1 timeout 59s }")
    );
    assert_eq!(
        unban(ip("198.51.100.7")),
        script("delete element inet vortexwall blackhole { 198.51.100.7 }")
    );
    assert_eq!(
        unban(ip("2001:db8::1")),
        script("delete element inet vortexwall blackhole6 { 2001:db8::1 }")
    );
}

#[test]
fn a_ban_lasts_at_least_a_second() {
    let one = script("add element inet vortexwall blackhole { 192.0.2.1 timeout 1s }");
    assert_eq!(ban(ip("192.0.2.1"), Duration::from_secs(0)), one);
    assert_eq!(ban(ip("192.0.2.1"), Duration::new(0, 5)), one);
    assert_eq!(ban(ip("192.0.2.1"), Duration::from_secs(1)), one);
    assert_eq!(
        ban(ip("192.0.2.1"), Duration::from_secs(u64::MAX)).stdin.unwrap(),
        "add element inet vortexwall blackhole { 192.0.2.1 timeout 18446744073709551615s }"
    );
}

#[test]
fn teardown_deletes_the_table() {
    assert_eq!(teardown(), run(&["delete", "table", "inet", "vortexwall"]));
}

#[test]
fn a_missing_table_is_torn_down_already() {
    assert_eq!(teardown_outcome(&output(true, "", "")), Ok(()));
    let missing = "Error: Could not process rule: No such file or directory\n";
    assert_eq!(teardown_outcome(&output(false, "", missing)), Ok(()));
    assert_eq!(
        teardown_outcome(&output(false, "", "Operation not permitted")),
        Err("nft failed on `delete table`: Operation not permitted".to_string())
    );
    assert_eq!(judge_teardown(false, "No such file or directory"), Ok(()));
    assert!(judge_teardown(false, "No such file or director").is_err());
    assert!(judge_teardown(false, "").is_err());
    assert_eq!(judge_teardown(true, "whatever"), Ok(()));
}

#[test]
fn failures_say_what_failed() {
    let bad = output(false, "", "syntax error");
    assert_eq!(script_outcome("add table x", &output(true, "", "warning")), Ok(()));
    assert_eq!(
        script_outcome("add table x", &bad),
        Err("nft failed on `add table x`: syntax error".to_string())
    );
    assert_eq!(nft_error("x", &bad), "nft failed on `x`: syntax error");
    assert_eq!(describe_failure("a", "b"), "nft failed on `a`: b");
}

#[test]
fn what_is_not_utf8_is_replaced() {
    let out = Output { success: false, stdout: vec![], stderr: vec![b'a', 0xff, b'b'] };
    assert_eq!(stderr_of(&out), "a\u{fffd}b");
    assert_eq!(stderr_of(&output(false, "", "naïve — ok")), "naïve — ok");
}

#[test]
fn both_sets_are_listed() {
    assert_eq!(
        list_commands(),
        vec![
            run(&["list", "set", "inet", "vortexwall", "blackhole"]),
            run(&["list", "set", "inet", "vortexwall", "blackhole6"]),
        ]
    );
}

#[test]
fn listings_are_read() {
    let v4 = "table inet vortexwall {\n\tset blackhole {\n\t\ttype ipv4_addr\n\t\tflags timeout\n\t\telements = { 198.51.100.7 timeout 1h expires 59m58s,\n\t\t\t     203.0.113.9 timeout 1m expires 3s }\n\t}\n}\n";
    let v6 = "table inet vortexwall {\n\tset blackhole6 {\n\t\telements = {2001:db8::1 timeout 1h}\n\t}\n}\n";
    assert_eq!(parse_listing(v4), vec![ip("198.51.100.7"), ip("203.0.113.9")]);
    assert_eq!(
        list_banned(&vec![output(true, v4, ""), output(true, v6, "")]),
        vec![ip("198.51.100.7"), ip("203.0.113.9"), ip("2001:db8::1")]
    );
    assert_eq!(list_banned(&vec![output(false, v4, ""), output(true, v6, "")]), vec![ip("2001:db8::1")]);
    assert_eq!(list_banned(&vec![output(true, "", ""), output(false, "", "no")]), vec![]);
    assert_eq!(list_banned(&vec![]), vec![]);
}

#[test]
fn words_end_at_commas_braces_and_white_space_only() {
    assert_eq!(
        parse_listing("192.0.2.1,192.0.2.2{192.0.2.3}192.0.2.4\u{a0}192.0.2.5\u{3000}192.0.2.6\u{85}::1"),
        vec![
            ip("192.0.2.1"), ip("192.0.2.2"), ip("192.0.2.3"), ip("192.0.2.4"), ip("192.0.2.5"),
            ip("192.0.2.6"), ip("::1"),
        ]
    );
    assert_eq!(parse_listing("192.0.2.1;192.0.2.2"), vec![]);
    assert_eq!(parse_listing("192.0.2.1\u{200b}"), vec![]);
}

#[test]
fn a_shown_address_is_listed_and_can_be_lifted() {
    let shown = ban(ip("2001:db8:0:0:1::"), Duration::from_secs(5)).stdin.unwrap();
    assert_eq!(parse_listing(&shown), vec![ip("2001:db8:0:0:1::")]);
}

#[test]
fn every_address_has_scripts_of_its_own() {
    let texts = ["1.1.1.1", "1.1.1.11", "11.1.1.1", "::1", "::11", "::ffff:1.1.1.1", "1::"];
    for a in texts {
        for b in texts {
            let same = a == b;
            let d = Duration::from_secs(9);
            assert_eq!(ban(ip(a), d) == ban(ip(b), d), same);
            assert_eq!(unban(ip(a)) == unban(ip(b)), same);
        }
    }
}
