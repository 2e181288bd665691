use vortexwall::admin::{exit_code, plan_admin, reported_code, resolve_admin_action, AdminPlan};
use vortexwall::cli::{
    bans_report, choose_mode, plan_test_ban, plan_unban, test_ban_report, unban_report, Mode,
    Options,
};
use vortexwall::ip::IpAddr;
use vortexwall::watch::{journal, line_action, next_action, WatchAction, WatchEvent};

#[test]
fn resolve_admin_action_maps_each_single_flag() {
    assert_eq!(resolve_admin_action(true, false, false, false), Ok("start"));
    assert_eq!(resolve_admin_action(false, true, false, false), Ok("stop"));
    assert_eq!(resolve_admin_action(false, false, true, false), Ok("restart"));
    assert_eq!(resolve_admin_action(false, false, false, true), Ok("status"));
}

#[test]
fn resolve_admin_action_rejects_no_flags_and_multiple_flags() {
    assert!(resolve_admin_action(false, false, false, false).is_err());
    assert!(resolve_admin_action(true, true, false, false).is_err());
}

#[test]
fn admin_complaints() {
    assert_eq!(
        resolve_admin_action(false, false, false, false),
        Err("--admin needs exactly one of --start, --stop, --restart, --status")
    );
    assert_eq!(
        resolve_admin_action(true, true, true, true),
        Err("--admin takes exactly one of --start, --stop, --restart, --status, not several at once")
    );
    assert!(matches!(plan_admin(false, true, true, false), AdminPlan::Refuse(_)));
    assert!(matches!(plan_admin(false, false, false, false), AdminPlan::Refuse(_)));
}

#[test]
fn admin_commands() {
    match plan_admin(false, false, true, false) {
        AdminPlan::Run { notice, command } => {
            assert_eq!(notice, "[admin] running: sudo systemctl restart vortexwall");
            assert_eq!(command.program, "sudo");
            assert_eq!(command.args, vec!["systemctl", "restart", "vortexwall"]);
            assert_eq!(command.stdin, None);
        },
        _ => panic!("refused"),
    }
    match plan_admin(false, false, false, true) {
        AdminPlan::Run { notice, command } => {
            assert_eq!(notice, "[admin] running: systemctl status vortexwall");
            assert_eq!(command.program, "systemctl");
            assert_eq!(command.args, vec!["status", "vortexwall"]);
        },
        _ => panic!("refused"),
    }
}

#[test]
fn exit_codes() {
    assert_eq!(exit_code(Some(3)), 3);
    assert_eq!(exit_code(None), 1);
    for code in [0, 1, 3, 255, 256, 257, -1, -256, i32::MAX, i32::MIN] {
        assert_eq!(reported_code(code), code as u8);
    }
}

fn options() -> Options {
    Options { admin: false, teardown: false, setup: false, test_ban: None, bans: false, unban: None }
}

#[test]
fn one_thing_is_done_at_a_time() {
    assert!(matches!(choose_mode(options()), Mode::Daemon));
    assert!(matches!(
        choose_mode(Options { admin: true, teardown: true, ..options() }),
        Mode::Admin
    ));
    assert!(matches!(
        choose_mode(Options { teardown: true, setup: true, ..options() }),
        Mode::Teardown
    ));
    assert!(matches!(
        choose_mode(Options { setup: true, test_ban: Some("x".to_string()), ..options() }),
        Mode::Setup
    ));
    match choose_mode(Options { test_ban: Some("x".to_string()), bans: true, ..options() }) {
        Mode::TestBan(text) => assert_eq!(text, "x"),
        _ => panic!("wrong mode"),
    }
    assert!(matches!(
        choose_mode(Options { bans: true, unban: Some("x".to_string()), ..options() }),
        Mode::Bans
    ));
    match choose_mode(Options { unban: Some("y".to_string()), ..options() }) {
        Mode::Unban(text) => assert_eq!(text, "y"),
        _ => panic!("wrong mode"),
    }
}

#[test]
fn a_test_ban_refuses_protected_addresses() {
    let plan = plan_test_ban("192.0.2.77").ok().unwrap();
    assert_eq!(plan.ip, IpAddr::V4([192, 0, 2, 77]));
    assert_eq!(
        plan.command.stdin.unwrap(),
        "add element inet vortexwall blackhole { 192.0.2.77 timeout 60s }"
    );
    assert_eq!(
        plan_test_ban("192.168.0.7").err().unwrap(),
        "[test-ban] refusing — 192.168.0.7 is loopback or a private range, never bannable"
    );
    assert_eq!(
        plan_test_ban("host").err().unwrap(),
        "[test-ban] not a valid IP address: host"
    );
    assert_eq!(
        test_ban_report(&plan.ip, &Ok(())).unwrap(),
        "[test-ban] 192.0.2.77 banned for 60s — check with --bans, or `nft list set inet vortexwall blackhole`"
    );
    assert_eq!(
        test_ban_report(&plan.ip, &Err("no".to_string())).unwrap_err(),
        "[test-ban] failed: no"
    );
}

#[test]
fn an_unban_takes_any_address() {
    let plan = plan_unban("2001:DB8:0::1").ok().unwrap();
    assert_eq!(
        plan.command.stdin.unwrap(),
        "delete element inet vortexwall blackhole6 { 2001:db8::1 }"
    );
    assert_eq!(plan_unban("1.2.3").err().unwrap(), "[unban] not a valid IP address: 1.2.3");
    assert_eq!(unban_report(&plan.ip, &Ok(())).unwrap(), "[unban] 2001:db8::1 removed");
    assert_eq!(unban_report(&plan.ip, &Err("no".to_string())).unwrap_err(), "[unban] failed: no");
}

#[test]
fn bans_are_shown_so_that_they_can_be_lifted() {
    assert_eq!(bans_report(&vec![]), vec!["No IPs currently banned."]);
    let ips = vec![IpAddr::V4([192, 0, 2, 1]), IpAddr::V6([1, 0, 0, 2, 0, 0, 0, 3])];
    let lines = bans_report(&ips);
    assert_eq!(lines, vec!["192.0.2.1", "1:0:0:2::3"]);
    for (line, ip) in lines.iter().zip(ips) {
        assert_eq!(plan_unban(line).ok().unwrap().ip, ip);
    }
}

#[test]
fn the_watch_goes_on_until_journalctl_exits() {
    let command = journal("sshd");
    assert_eq!(command.program, "journalctl");
    assert_eq!(command.args, vec!["-f", "-u", "sshd", "-o", "cat", "--since", "now"]);
    match next_action("sshd", WatchEvent::Woken) {
        WatchAction::Spawn { notice, command } => {
            assert_eq!(notice, "[watch] tailing journal for sshd");
            assert_eq!(command, journal("sshd"));
        },
        _ => panic!("not started"),
    }
    match next_action("sshd", WatchEvent::SpawnFailed("no such file".to_string())) {
        WatchAction::Pause { complaint, secs } => {
            assert_eq!(complaint, "[watch] failed to spawn journalctl for sshd: no such file");
            assert_eq!(secs, 10);
        },
        _ => panic!("no pause"),
    }
    match next_action("sshd", WatchEvent::ReadFailed) {
        WatchAction::Pause { complaint, secs } => {
            assert_eq!(complaint, "[watch] journalctl for sshd exited — restarting in 10s");
            assert_eq!(secs, 10);
        },
        _ => panic!("no pause"),
    }
    match next_action("sshd", WatchEvent::Ended) {
        WatchAction::Finish { complaint } => {
            assert_eq!(complaint, "[watch] journalctl for sshd exited");
        },
        _ => panic!("no end"),
    }
    assert!(matches!(next_action("sshd", WatchEvent::Spawned), WatchAction::ReadLine));
    assert!(matches!(next_action("sshd", WatchEvent::Delivered), WatchAction::ReadLine));
}

#[test]
fn offenders_are_passed_on() {
    let line = "Invalid user admin from 203.0.113.9 port 33000".to_string();
    match next_action("sshd", WatchEvent::Line(line)) {
        WatchAction::Deliver(ip) => assert_eq!(ip, IpAddr::V4([203, 0, 113, 9])),
        _ => panic!("not delivered"),
    }
    let line = "Server listening on 0.0.0.0 port 22.".to_string();
    assert!(matches!(next_action("sshd", WatchEvent::Line(line)), WatchAction::ReadLine));
    assert!(matches!(line_action(None), WatchAction::ReadLine));
    assert!(matches!(line_action(Some(IpAddr::V4([1, 1, 1, 1]))), WatchAction::Deliver(_)));
}
