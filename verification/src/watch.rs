//! Following one service's journal: what to do next, whatever happened last.

use vstd::prelude::*;

use crate::command::{strs, Command, Invocation};
use crate::detector::{extract_offender, offender_in};
use crate::ip::IpAddr;

verus! {

/// Seconds to wait before the journal is opened again.
pub const RETRY_SECS: u64 = 10;

/// What happened last.
pub enum WatchEvent {
    /// The watch begins, or a pause is over.
    Woken,
    /// `journalctl` could not be started, for this reason.
    SpawnFailed(String),
    /// `journalctl` is running.
    Spawned,
    /// The journal has this line.
    Line(String),
    /// An offender was passed on.
    Delivered,
    /// The journal could not be read any further.
    ReadFailed,
    /// The journal ended: `journalctl` exited.
    Ended,
}

/// What to do next.
pub enum WatchAction {
    /// Announce `notice` and start `command`.
    Spawn { notice: String, command: Invocation },
    /// Wait for the next line.
    ReadLine,
    /// Pass the offender on.
    Deliver(IpAddr),
    /// Complain, and pause for so many seconds.
    Pause { complaint: String, secs: u64 },
    /// Complain, and end the watch.
    Finish { complaint: String },
}

/// Following the journal of `service` from now on, messages only.
pub open spec fn journal_command(service: Seq<char>) -> Command {
    Command {
        program: "journalctl"@,
        args: seq!["-f"@, "-u"@, service, "-o"@, "cat"@, "--since"@, "now"@],
        stdin: None,
    }
}

/// Follows the journal of `service`.
pub fn journal(service: &str) -> (r: Invocation)
    ensures
        r@ == journal_command(service@),
{
    let args: Vec<&str> = vec!["-f", "-u", service, "-o", "cat", "--since", "now"];
    assert(strs(args@) =~= seq!["-f"@, "-u"@, service@, "-o"@, "cat"@, "--since"@, "now"@]);
    Invocation::new("journalctl", &args)
}

/// What to do about a line, given the offender that was found in it.
pub fn line_action(offender: Option<IpAddr>) -> (r: WatchAction)
    ensures
        match offender {
            Some(ip) => r == WatchAction::Deliver(ip),
            None => r is ReadLine,
        },
{
    match offender {
        Some(ip) => WatchAction::Deliver(ip),
        None => WatchAction::ReadLine,
    }
}

/// The next thing to do in the watch over `service`. The watch ends when
/// `journalctl` exits, and only then: where it cannot be started or read, it is
/// started again after a pause.
pub fn next_action(service: &str, event: WatchEvent) -> (r: WatchAction)
    ensures
        match event {
            WatchEvent::Woken => {
                &&& r is Spawn
                &&& r->notice@ == "[watch] tailing journal for "@ + service@
                &&& r->command@ == journal_command(service@)
            },
            WatchEvent::SpawnFailed(why) => {
                &&& r is Pause
                &&& r->Pause_complaint@ == "[watch] failed to spawn journalctl for "@ + service@ + ": "@
                    + why@
                &&& r->secs == RETRY_SECS
            },
            WatchEvent::Spawned => r is ReadLine,
            WatchEvent::Line(line) => match offender_in(line@) {
                Some(a) => r is Deliver && r->Deliver_0@ == a,
                None => r is ReadLine,
            },
            WatchEvent::Delivered => r is ReadLine,
            WatchEvent::ReadFailed => {
                &&& r is Pause
                &&& r->Pause_complaint@ == "[watch] journalctl for "@ + service@
                    + " exited — restarting in 10s"@
                &&& r->secs == RETRY_SECS
            },
            WatchEvent::Ended => {
                &&& r is Finish
                &&& r->Finish_complaint@ == "[watch] journalctl for "@ + service@ + " exited"@
            },
        },
        r is Finish <==> event is Ended,
{
    match event {
        WatchEvent::Woken => {
            let mut notice: String = "[watch] tailing journal for ".to_string();
            notice.append(service);
            WatchAction::Spawn { notice, command: journal(service) }
        },
        WatchEvent::SpawnFailed(why) => {
            let mut complaint: String = "[watch] failed to spawn journalctl for ".to_string();
            complaint.append(service);
            complaint.append(": ");
            complaint.append(why.as_str());
            WatchAction::Pause { complaint, secs: RETRY_SECS }
        },
        WatchEvent::Spawned => WatchAction::ReadLine,
        WatchEvent::Line(line) => line_action(extract_offender(line.as_str())),
        WatchEvent::Delivered => WatchAction::ReadLine,
        WatchEvent::ReadFailed => {
            let mut complaint: String = "[watch] journalctl for ".to_string();
            complaint.append(service);
            complaint.append(" exited — restarting in 10s");
            WatchAction::Pause { complaint, secs: RETRY_SECS }
        },
        WatchEvent::Ended => {
            let mut complaint: String = "[watch] journalctl for ".to_string();
            complaint.append(service);
            complaint.append(" exited");
            WatchAction::Finish { complaint }
        },
    }
}

/// The journal of any service is followed from now on, messages only, and reopened after
/// ten seconds.
pub proof fn law_journal_command(service: Seq<char>)
    ensures
        journal_command(service).program == "journalctl"@,
        journal_command(service).args == seq!["-f"@, "-u"@] + seq![service] + seq![
            "-o"@,
            "cat"@,
            "--since"@,
            "now"@,
        ],
        journal_command(service).stdin is None,
        RETRY_SECS == 10,
{
    assert(journal_command(service).args =~= seq!["-f"@, "-u"@] + seq![service] + seq![
        "-o"@,
        "cat"@,
        "--since"@,
        "now"@,
    ]);
}

} // verus!
