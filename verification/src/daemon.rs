//! The daemon's decisions: what each reported failure leads to.

use vstd::prelude::*;

use crate::command::{strings, Command, Invocation};
use crate::config::AppConfig;
use crate::detector::{is_never_bannable, never_bannable, recorded, FailureTracker};
use crate::ip::{address_text, addresses, addresses_among, parse_address, parse_all, Address, IpAddr};
use crate::nft::{ban, ban_script, script_command, setup, setup_script};
use crate::text::{dec, push_dec};
use crate::time::{Duration, Instant, NANOS_PER_SEC};

verus! {

/// The rules that the daemon decides by.
pub struct Rules {
    /// Failures within the window that lead to a ban.
    pub threshold: usize,
    /// How far back failures count.
    pub window: Duration,
    /// How long a ban lasts, in seconds.
    pub ban_secs: u64,
    /// Addresses that are not to be banned.
    pub allowlist: Seq<Address>,
    /// Nothing is to be touched.
    pub dry_run: bool,
}

/// What a failure leads to, as mathematics.
pub enum Decision {
    Protected,
    Allowlisted,
    Counted,
    WouldBan,
    Ban(Command),
}

/// What a failure leads to.
pub enum Verdict {
    /// Nothing: the address is loopback or private, and not even counted.
    Protected,
    /// Nothing: the address is on the allowlist, and not even counted.
    Allowlisted,
    /// It is counted.
    Counted,
    /// The address would be banned, were this no dry run.
    WouldBan,
    /// The address is banned, by running this.
    Ban(Invocation),
}

impl View for Verdict {
    type V = Decision;

    open spec fn view(&self) -> Decision {
        match self {
            Verdict::Protected => Decision::Protected,
            Verdict::Allowlisted => Decision::Allowlisted,
            Verdict::Counted => Decision::Counted,
            Verdict::WouldBan => Decision::WouldBan,
            Verdict::Ban(command) => Decision::Ban(command@),
        }
    }
}

/// Banning `a` for `secs` seconds, or for one second if that is none.
pub open spec fn ban_command(a: Address, secs: u64) -> Command {
    script_command(
        ban_script(
            a,
            if secs == 0 {
                1
            } else {
                secs as nat
            },
        ),
    )
}

/// What a failure of `a` at `now` leads to, after the failures in `history`.
pub open spec fn decide(
    rules: Rules,
    history: Seq<Instant>,
    a: Address,
    now: Instant,
) -> Decision {
    if never_bannable(a) {
        Decision::Protected
    } else if rules.allowlist.contains(a) {
        Decision::Allowlisted
    } else if recorded(history, now, rules.window).len() != rules.threshold {
        Decision::Counted
    } else if rules.dry_run {
        Decision::WouldBan
    } else {
        Decision::Ban(ban_command(a, rules.ban_secs))
    }
}

/// The failures of `a` that are remembered afterwards.
pub open spec fn history_after(
    rules: Rules,
    history: Seq<Instant>,
    a: Address,
    now: Instant,
) -> Seq<Instant> {
    match decide(rules, history, a, now) {
        Decision::Protected | Decision::Allowlisted => history,
        Decision::Counted => recorded(history, now, rules.window),
        Decision::WouldBan | Decision::Ban(_) => Seq::<Instant>::empty(),
    }
}

fn same(a: &IpAddr, b: &IpAddr) -> (r: bool)
    ensures
        r == (a@ == b@),
{
    match (a, b) {
        (IpAddr::V4(x), IpAddr::V4(y)) => {
            let r: bool = x[0] == y[0] && x[1] == y[1] && x[2] == y[2] && x[3] == y[3];
            proof {
                if r {
                    assert(x@ =~= y@);
                }
            }
            r
        },
        (IpAddr::V6(x), IpAddr::V6(y)) => {
            let r: bool = x[0] == y[0] && x[1] == y[1] && x[2] == y[2] && x[3] == y[3] && x[4]
                == y[4] && x[5] == y[5] && x[6] == y[6] && x[7] == y[7];
            proof {
                if r {
                    assert(x@ =~= y@);
                }
            }
            r
        },
        _ => false,
    }
}

/// The warning that entries of the allowlist were dropped.
pub const ALLOWLIST_WARNING: &'static str =
    "[Configuration] warning: some allowlist entries didn't parse as plain IPs (CIDR ranges aren't supported yet) and were ignored";

/// The addresses of the allowlist, and a warning if an entry is none and is
/// ignored.
pub fn read_allowlist(entries: &Vec<String>) -> (r: (Vec<IpAddr>, Option<&'static str>))
    ensures
        addresses(r.0@) == addresses_among(strings(entries@)),
        r.1 is Some <==> exists|i: int|
            0 <= i < entries@.len() && parse_address(#[trigger] entries@[i]@) is None,
        r.1 is Some ==> r.1->0@ == ALLOWLIST_WARNING@,
{
    let ips: Vec<IpAddr> = parse_all(entries);
    proof {
        let texts = strings(entries@);
        lemma_none_dropped(texts);
        assert(addresses(ips@).len() == ips@.len());
        if ips@.len() == entries@.len() {
            assert forall|i: int| 0 <= i < entries@.len() implies parse_address(
                #[trigger] entries@[i]@,
            ) is Some by {
                assert(texts[i] == entries@[i]@);
            }
        } else {
            let i = choose|i: int|
                0 <= i < texts.len() && parse_address(#[trigger] texts[i]) is None;
            assert(parse_address(entries@[i]@) is None);
        }
    }
    if ips.len() != entries.len() {
        (ips, Some(ALLOWLIST_WARNING))
    } else {
        (ips, None)
    }
}

proof fn lemma_none_dropped(texts: Seq<Seq<char>>)
    ensures
        addresses_among(texts).len() <= texts.len(),
        addresses_among(texts).len() == texts.len() <==> forall|i: int|
            0 <= i < texts.len() ==> parse_address(#[trigger] texts[i]) is Some,
    decreases texts.len(),
{
    if texts.len() > 0 {
        let front = texts.drop_last();
        lemma_none_dropped(front);
        assert(forall|i: int| 0 <= i < front.len() ==> front[i] == texts[i]);
        if addresses_among(texts).len() == texts.len() {
            assert forall|i: int| 0 <= i < texts.len() implies parse_address(
                #[trigger] texts[i],
            ) is Some by {
                if i < front.len() {
                    assert(parse_address(front[i]) is Some);
                }
            }
        }
        if forall|i: int| 0 <= i < texts.len() ==> parse_address(#[trigger] texts[i]) is Some {
            assert forall|i: int| 0 <= i < front.len() implies parse_address(
                #[trigger] front[i],
            ) is Some by {
                assert(parse_address(texts[i]) is Some);
            }
            assert(parse_address(texts[texts.len() - 1]) is Some);
        }
    }
}

/// What is run before anything is watched: in a dry run nothing, else what
/// creates the table.
pub fn startup_command(dry_run: bool) -> (r: Option<Invocation>)
    ensures
        r is None <==> dry_run,
        r is Some ==> r->0@ == script_command(setup_script()),
{
    if dry_run {
        None
    } else {
        Some(setup())
    }
}

/// The state of a running daemon.
pub struct Daemon {
    tracker: FailureTracker,
    allowlist: Vec<IpAddr>,
    ban_secs: u64,
    dry_run: bool,
}

impl Daemon {
    /// The rules that the daemon decides by.
    pub closed spec fn rules(self) -> Rules {
        Rules {
            threshold: self.tracker.threshold(),
            window: self.tracker.window(),
            ban_secs: self.ban_secs,
            allowlist: addresses(self.allowlist@),
            dry_run: self.dry_run,
        }
    }

    /// The failures that are remembered of an address.
    pub closed spec fn history(self, a: Address) -> Seq<Instant> {
        self.tracker.history(a)
    }

    /// A daemon that has seen nothing yet.
    pub fn new(cfg: &AppConfig, allowlist: Vec<IpAddr>, dry_run: bool) -> (r: Daemon)
        ensures
            r.rules().threshold == cfg.threshold,
            r.rules().window.total() == cfg.window_secs * NANOS_PER_SEC,
            r.rules().ban_secs == cfg.ban_secs,
            r.rules().allowlist == addresses(allowlist@),
            r.rules().dry_run == dry_run,
            forall|a: Address| #[trigger] r.history(a) == Seq::<Instant>::empty(),
    {
        let tracker: FailureTracker = FailureTracker::new(
            Duration::from_secs(cfg.window_secs),
            cfg.threshold,
        );
        Daemon { tracker, allowlist, ban_secs: cfg.ban_secs, dry_run }
    }

    fn allows(&self, ip: &IpAddr) -> (r: bool)
        ensures
            r == self.rules().allowlist.contains(ip@),
    {
        let mut i: usize = 0;
        while i < self.allowlist.len()
            invariant
                i <= self.allowlist@.len(),
                forall|k: int| 0 <= k < i ==> (#[trigger] self.allowlist@[k])@ != ip@,
            decreases self.allowlist.len() - i,
        {
            if same(&self.allowlist[i], ip) {
                assert(addresses(self.allowlist@)[i as int] == ip@);
                return true;
            }
            i += 1;
        }
        assert(!addresses(self.allowlist@).contains(ip@));
        false
    }

    /// Takes note of a failure of `ip` at `now` and decides what it leads to. Once
    /// an address is to be banned its count starts anew, whatever becomes of the
    /// ban.
    pub fn observe(&mut self, ip: IpAddr, now: Instant) -> (r: Verdict)
        ensures
            final(self).rules() == old(self).rules(),
            r@ == decide(old(self).rules(), old(self).history(ip@), ip@, now),
            final(self).history(ip@) == history_after(
                old(self).rules(),
                old(self).history(ip@),
                ip@,
                now,
            ),
            forall|b: Address|
                b.valid() && b != ip@ ==> #[trigger] final(self).history(b) == old(self).history(b),
    {
        if is_never_bannable(&ip) {
            return Verdict::Protected;
        }
        if self.allows(&ip) {
            return Verdict::Allowlisted;
        }
        if !self.tracker.record(ip, now) {
            return Verdict::Counted;
        }
        self.tracker.forget(&ip);
        if self.dry_run {
            Verdict::WouldBan
        } else {
            Verdict::Ban(ban(ip, Duration::from_secs(self.ban_secs)))
        }
    }

    fn push_terms(&self, out: &mut String, ip: &IpAddr)
        ensures
            final(out)@ == old(out)@ + terms(self.rules(), ip@),
    {
        ip.push_text(out);
        out.append(" for ");
        push_dec(out, self.ban_secs);
        out.append("s (threshold ");
        push_dec(out, self.tracker.threshold_value() as u64);
        out.append(" reached)");
        assert(out@ =~= old(out)@ + terms(self.rules(), ip@));
    }

    /// What is said of an address that would be banned, were this no dry run.
    pub fn would_ban_notice(&self, ip: &IpAddr) -> (r: String)
        ensures
            r@ == "[DRY-RUN] would ban "@ + terms(self.rules(), ip@),
            r@ == "[DRY-RUN] would ban "@ + (address_text(ip@) + " for "@ + dec(
                self.rules().ban_secs as nat,
            ) + "s (threshold "@ + dec(self.rules().threshold as nat) + " reached)"@),
    {
        let mut r: String = "[DRY-RUN] would ban ".to_string();
        self.push_terms(&mut r, ip);
        r
    }

    /// What is said of a ban, given what it came to: a notice, or a complaint.
    pub fn ban_report(&self, ip: &IpAddr, outcome: &Result<(), String>) -> (r: Result<
        String,
        String,
    >)
        ensures
            match outcome {
                Ok(_) => r is Ok && r->Ok_0@ == "[BANNED] "@ + terms(self.rules(), ip@),
                Err(why) => r is Err && r->Err_0@ == "[ERROR] failed to ban "@ + address_text(ip@)
                    + ": "@ + why@,
            },
            outcome is Ok ==> r is Ok && r->Ok_0@ == "[BANNED] "@ + (address_text(ip@) + " for "@
                + dec(self.rules().ban_secs as nat) + "s (threshold "@ + dec(
                self.rules().threshold as nat,
            ) + " reached)"@),
    {
        match outcome {
            Ok(_) => {
                let mut r: String = "[BANNED] ".to_string();
                self.push_terms(&mut r, ip);
                Ok(r)
            },
            Err(why) => {
                let mut r: String = "[ERROR] failed to ban ".to_string();
                ip.push_text(&mut r);
                r.append(": ");
                r.append(why.as_str());
                Err(r)
            },
        }
    }
}

/// The terms of a ban: the address, how long, and what led to it.
pub open spec fn terms(rules: Rules, a: Address) -> Seq<char> {
    address_text(a) + " for "@ + dec(rules.ban_secs as nat) + "s (threshold "@ + dec(
        rules.threshold as nat,
    ) + " reached)"@
}

/// What is said of an address that is never banned.
pub fn protected_notice(ip: &IpAddr) -> (r: String)
    ensures
        r@ == "[protected] "@ + address_text(ip@)
            + " had an auth failure but is loopback/private — never a ban candidate"@,
{
    let mut r: String = "[protected] ".to_string();
    ip.push_text(&mut r);
    r.append(" had an auth failure but is loopback/private — never a ban candidate");
    r
}

} // verus!
