//! What the command line asks for.

use vstd::prelude::*;

use crate::command::Invocation;
use crate::daemon::ban_command;
use crate::detector::{is_never_bannable, never_bannable};
use crate::ip::{address_text, parse_address, Address, IpAddr};
use crate::nft::{ban, ban_script, script_command, unban, unban_script};
use crate::time::Duration;

verus! {

/// The options that choose what is done. Each does its one thing and exits.
pub struct Options {
    pub admin: bool,
    pub teardown: bool,
    pub setup: bool,
    pub test_ban: Option<String>,
    pub bans: bool,
    pub unban: Option<String>,
}

/// What is done.
pub enum Mode {
    /// Control the systemd service.
    Admin,
    /// Remove the table.
    Teardown,
    /// Create the table.
    Setup,
    /// Ban this address, for a test.
    TestBan(String),
    /// List the bans.
    Bans,
    /// Lift the ban of this address.
    Unban(String),
    /// Watch the logs.
    Daemon,
}

/// The one thing that is done: of several options, the first in the order of
/// `Mode`; without any, the daemon is run.
pub open spec fn mode_of(options: Options) -> Mode {
    if options.admin {
        Mode::Admin
    } else if options.teardown {
        Mode::Teardown
    } else if options.setup {
        Mode::Setup
    } else if options.test_ban is Some {
        Mode::TestBan(options.test_ban->0)
    } else if options.bans {
        Mode::Bans
    } else if options.unban is Some {
        Mode::Unban(options.unban->0)
    } else {
        Mode::Daemon
    }
}

/// Chooses what is done.
pub fn choose_mode(options: Options) -> (r: Mode)
    ensures
        r == mode_of(options),
        options.admin ==> r is Admin,
        !options.admin && options.teardown ==> r is Teardown,
        !options.admin && !options.teardown && options.setup ==> r is Setup,
        !options.admin && !options.teardown && !options.setup && options.test_ban is Some ==> r
            == Mode::TestBan(options.test_ban->0),
        !options.admin && !options.teardown && !options.setup && options.test_ban is None
            && options.bans ==> r is Bans,
        !options.admin && !options.teardown && !options.setup && options.test_ban is None
            && !options.bans && options.unban is Some ==> r == Mode::Unban(options.unban->0),
        !options.admin && !options.teardown && !options.setup && options.test_ban is None
            && !options.bans && options.unban is None ==> r is Daemon,
{
    if options.admin {
        return Mode::Admin;
    }
    if options.teardown {
        return Mode::Teardown;
    }
    if options.setup {
        return Mode::Setup;
    }
    match options.test_ban {
        Some(text) => return Mode::TestBan(text),
        None => {},
    }
    if options.bans {
        return Mode::Bans;
    }
    match options.unban {
        Some(text) => Mode::Unban(text),
        None => Mode::Daemon,
    }
}

/// How long a ban for a test lasts, in seconds.
pub const TEST_BAN_SECS: u64 = 60;

/// An address, and what to run about it.
pub struct Plan {
    pub ip: IpAddr,
    pub command: Invocation,
}

/// What banning the address `text` for a test comes to: what to run, or why it is
/// refused.
pub fn plan_test_ban(text: &str) -> (r: Result<Plan, String>)
    ensures
        match parse_address(text@) {
            None => r is Err && r->Err_0@ == "[test-ban] not a valid IP address: "@ + text@,
            Some(a) => if never_bannable(a) {
                r is Err && r->Err_0@ == "[test-ban] refusing — "@ + address_text(a)
                    + " is loopback or a private range, never bannable"@
            } else {
                r is Ok && r->Ok_0.ip@ == a && r->Ok_0.command@ == ban_command(a, TEST_BAN_SECS)
            },
        },
{
    let ip: IpAddr = match IpAddr::parse(text) {
        Some(ip) => ip,
        None => {
            let mut e: String = "[test-ban] not a valid IP address: ".to_string();
            e.append(text);
            return Err(e);
        },
    };
    if is_never_bannable(&ip) {
        let mut e: String = "[test-ban] refusing — ".to_string();
        ip.push_text(&mut e);
        e.append(" is loopback or a private range, never bannable");
        return Err(e);
    }
    Ok(Plan { ip, command: ban(ip, Duration::from_secs(TEST_BAN_SECS)) })
}

/// What is said of a ban for a test, given what it came to: a notice, or a
/// complaint.
pub fn test_ban_report(ip: &IpAddr, outcome: &Result<(), String>) -> (r: Result<String, String>)
    ensures
        match outcome {
            Ok(_) => r is Ok && r->Ok_0@ == "[test-ban] "@ + address_text(ip@)
                + " banned for 60s — check with --bans, or `nft list set inet vortexwall blackhole`"@,
            Err(why) => r is Err && r->Err_0@ == "[test-ban] failed: "@ + why@,
        },
{
    match outcome {
        Ok(_) => {
            let mut r: String = "[test-ban] ".to_string();
            ip.push_text(&mut r);
            r.append(
                " banned for 60s — check with --bans, or `nft list set inet vortexwall blackhole`",
            );
            Ok(r)
        },
        Err(why) => {
            let mut r: String = "[test-ban] failed: ".to_string();
            r.append(why.as_str());
            Err(r)
        },
    }
}

/// What lifting the ban of the address `text` comes to: what to run, or why it is
/// refused.
pub fn plan_unban(text: &str) -> (r: Result<Plan, String>)
    ensures
        match parse_address(text@) {
            None => r is Err && r->Err_0@ == "[unban] not a valid IP address: "@ + text@,
            Some(a) => r is Ok && r->Ok_0.ip@ == a && r->Ok_0.command@ == script_command(
                unban_script(a),
            ),
        },
{
    match IpAddr::parse(text) {
        Some(ip) => Ok(Plan { ip, command: unban(ip) }),
        None => {
            let mut e: String = "[unban] not a valid IP address: ".to_string();
            e.append(text);
            Err(e)
        },
    }
}

/// What is said of a lifted ban, given what lifting it came to: a notice, or a
/// complaint.
pub fn unban_report(ip: &IpAddr, outcome: &Result<(), String>) -> (r: Result<String, String>)
    ensures
        match outcome {
            Ok(_) => r is Ok && r->Ok_0@ == "[unban] "@ + address_text(ip@) + " removed"@,
            Err(why) => r is Err && r->Err_0@ == "[unban] failed: "@ + why@,
        },
{
    match outcome {
        Ok(_) => {
            let mut r: String = "[unban] ".to_string();
            ip.push_text(&mut r);
            r.append(" removed");
            Ok(r)
        },
        Err(why) => {
            let mut r: String = "[unban] failed: ".to_string();
            r.append(why.as_str());
            Err(r)
        },
    }
}

/// The lines that list the bans: one for each address, or one that says that there
/// are none.
pub fn bans_report(ips: &Vec<IpAddr>) -> (r: Vec<String>)
    ensures
        ips@.len() == 0 ==> r@.len() == 1 && r@[0]@ == "No IPs currently banned."@,
        ips@.len() > 0 ==> r@.len() == ips@.len() && forall|i: int|
            0 <= i < r@.len() ==> (#[trigger] r@[i])@ == address_text(ips@[i]@),
{
    if ips.len() == 0 {
        return vec!["No IPs currently banned.".to_string()];
    }
    let mut r: Vec<String> = Vec::new();
    let mut i: usize = 0;
    while i < ips.len()
        invariant
            i <= ips.len(),
            r@.len() == i,
            forall|k: int| 0 <= k < i ==> (#[trigger] r@[k])@ == address_text(ips@[k]@),
        decreases ips.len() - i,
    {
        r.push(ips[i].to_text());
        i += 1;
    }
    r
}

/// A ban for a test lasts a minute, whatever the address.
pub proof fn law_test_ban_lasts_a_minute(a: Address)
    ensures
        TEST_BAN_SECS == 60,
        ban_command(a, TEST_BAN_SECS).stdin == Some(ban_script(a, 60)),
{
}

} // verus!
