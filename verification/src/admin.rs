//! Control of the systemd service.

use vstd::prelude::*;

use crate::command::{strs, Command, Invocation};

verus! {

/// How many of the flags are set.
pub open spec fn flag_count(start: bool, stop: bool, restart: bool, status: bool) -> int {
    (if start { 1int } else { 0 }) + (if stop { 1int } else { 0 }) + (if restart { 1int } else { 0 })
        + (if status { 1int } else { 0 })
}

/// The name of the action whose flag is set.
pub open spec fn action_text(start: bool, stop: bool, restart: bool) -> Seq<char> {
    if start {
        "start"@
    } else if stop {
        "stop"@
    } else if restart {
        "restart"@
    } else {
        "status"@
    }
}

/// The complaint that no action is asked for.
pub const NO_ACTION: &'static str =
    "--admin needs exactly one of --start, --stop, --restart, --status";

/// The complaint that several actions are asked for.
pub const SEVERAL_ACTIONS: &'static str =
    "--admin takes exactly one of --start, --stop, --restart, --status, not several at once";

/// The action that is asked for. Exactly one of the flags must be set.
pub fn resolve_admin_action(start: bool, stop: bool, restart: bool, status: bool) -> (r: Result<
    &'static str,
    &'static str,
>)
    ensures
        r is Ok <==> flag_count(start, stop, restart, status) == 1,
        r is Ok ==> r->Ok_0@ == action_text(start, stop, restart),
        flag_count(start, stop, restart, status) == 0 ==> r is Err && r->Err_0@ == NO_ACTION@,
        flag_count(start, stop, restart, status) > 1 ==> r is Err && r->Err_0@ == SEVERAL_ACTIONS@,
        start && !stop && !restart && !status ==> r is Ok && r->Ok_0@ == "start"@,
        !start && stop && !restart && !status ==> r is Ok && r->Ok_0@ == "stop"@,
        !start && !stop && restart && !status ==> r is Ok && r->Ok_0@ == "restart"@,
        !start && !stop && !restart && status ==> r is Ok && r->Ok_0@ == "status"@,
        !(start || stop || restart || status) ==> r is Err && r->Err_0@
            == "--admin needs exactly one of --start, --stop, --restart, --status"@,
        (start && (stop || restart || status)) || (stop && (restart || status)) || (restart
            && status) ==> r is Err && r->Err_0@
            == "--admin takes exactly one of --start, --stop, --restart, --status, not several at once"@,
{
    match (start, stop, restart, status) {
        (true, false, false, false) => Ok("start"),
        (false, true, false, false) => Ok("stop"),
        (false, false, true, false) => Ok("restart"),
        (false, false, false, true) => Ok("status"),
        (false, false, false, false) => Err(NO_ACTION),
        _ => Err(SEVERAL_ACTIONS),
    }
}

/// Whether an action changes the service, which takes privileges. Asking for the
/// status does not.
pub open spec fn needs_sudo(action: Seq<char>) -> bool {
    action != "status"@
}

/// What is run for an action.
pub open spec fn action_command(action: Seq<char>) -> Command {
    if needs_sudo(action) {
        Command {
            program: "sudo"@,
            args: seq!["systemctl"@, action, "vortexwall"@],
            stdin: None,
        }
    } else {
        Command { program: "systemctl"@, args: seq![action, "vortexwall"@], stdin: None }
    }
}

/// What is announced before an action.
pub open spec fn action_notice(action: Seq<char>) -> Seq<char> {
    "[admin] running: "@ + (if needs_sudo(action) {
        "sudo "@
    } else {
        ""@
    }) + "systemctl "@ + action + " vortexwall"@
}

/// What a request to control the service comes to.
pub enum AdminPlan {
    /// It is refused, with this complaint, and the exit code is 1.
    Refuse(&'static str),
    /// `notice` is announced and `command` is run.
    Run { notice: String, command: Invocation },
}

/// Decides what a request to control the service comes to.
pub fn plan_admin(start: bool, stop: bool, restart: bool, status: bool) -> (r: AdminPlan)
    ensures
        match r {
            AdminPlan::Refuse(complaint) => {
                &&& flag_count(start, stop, restart, status) != 1
                &&& complaint@ == if flag_count(start, stop, restart, status) == 0 {
                    NO_ACTION@
                } else {
                    SEVERAL_ACTIONS@
                }
            },
            AdminPlan::Run { notice, command } => {
                &&& flag_count(start, stop, restart, status) == 1
                &&& notice@ == action_notice(action_text(start, stop, restart))
                &&& command@ == action_command(action_text(start, stop, restart))
            },
        },
{
    let action: &'static str = match resolve_admin_action(start, stop, restart, status) {
        Ok(action) => action,
        Err(complaint) => return AdminPlan::Refuse(complaint),
    };
    proof {
        reveal_strlit("start");
        reveal_strlit("stop");
        reveal_strlit("restart");
        reveal_strlit("status");
        assert("start"@.len() == 5);
        assert("stop"@.len() == 4);
        assert("restart"@.len() == 7);
        assert("status"@.len() == 6);
    }
    let mut notice: String = "[admin] running: ".to_string();
    let command: Invocation = if status {
        let args: Vec<&str> = vec![action, "vortexwall"];
        assert(strs(args@) =~= seq![action@, "vortexwall"@]);
        notice.append("");
        Invocation::new("systemctl", &args)
    } else {
        let args: Vec<&str> = vec!["systemctl", action, "vortexwall"];
        assert(strs(args@) =~= seq!["systemctl"@, action@, "vortexwall"@]);
        notice.append("sudo ");
        Invocation::new("sudo", &args)
    };
    notice.append("systemctl ");
    notice.append(action);
    notice.append(" vortexwall");
    AdminPlan::Run { notice, command }
}

/// The exit code of a program that was run; one that a signal ended counts as 1.
pub fn exit_code(code: Option<i32>) -> (r: i32)
    ensures
        r == match code {
            Some(code) => code,
            None => 1,
        },
{
    match code {
        Some(code) => code,
        None => 1,
    }
}

/// The low eight bits of an exit code, which are what a process can report.
pub fn reported_code(code: i32) -> (r: u8)
    ensures
        r as int == code as int % 256,
{
    assert((code as u8) as u32 == (code as u32) % 256) by (bit_vector);
    assert(code >= 0 ==> code as u32 == code) by (bit_vector);
    assert(code < 0 ==> (code as u32) as i64 == code as i64 + 0x1_0000_0000) by (bit_vector);
    code as u8
}

/// Which action is asked for, and how many of the flags are set.
pub proof fn law_flags(start: bool, stop: bool, restart: bool, status: bool)
    ensures
        flag_count(start, stop, restart, status) == 0 <==> !(start || stop || restart || status),
        flag_count(start, stop, restart, status) > 1 <==> (start && (stop || restart || status)) || (
        stop && (restart || status)) || (restart && status),
        start ==> action_text(start, stop, restart) == "start"@,
        !start && stop ==> action_text(start, stop, restart) == "stop"@,
        !start && !stop && restart ==> action_text(start, stop, restart) == "restart"@,
        !start && !stop && !restart ==> action_text(start, stop, restart) == "status"@,
        NO_ACTION@ == "--admin needs exactly one of --start, --stop, --restart, --status"@,
        SEVERAL_ACTIONS@
            == "--admin takes exactly one of --start, --stop, --restart, --status, not several at once"@,
{
}

/// The status is asked for as it is; every other action is run through `sudo`. What is
/// announced is what is run.
pub proof fn law_actions(action: Seq<char>)
    ensures
        action_command(action).stdin is None,
        action == "status"@ ==> action_command(action).program == "systemctl"@ && action_command(
            action,
        ).args == seq!["status"@, "vortexwall"@] && action_notice(action)
            == "[admin] running: "@ + "systemctl "@ + action + " vortexwall"@,
        action != "status"@ ==> action_command(action).program == "sudo"@ && action_command(
            action,
        ).args == seq!["systemctl"@, action, "vortexwall"@] && action_notice(action)
            == "[admin] running: "@ + "sudo "@ + "systemctl "@ + action + " vortexwall"@,
{
    reveal_strlit("");
    assert("[admin] running: "@ + ""@ =~= "[admin] running: "@);
}

} // verus!
