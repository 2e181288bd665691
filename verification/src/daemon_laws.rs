//! What the daemon does and never does, over any run of failures.

use vstd::prelude::*;

use crate::daemon::{ban_command, decide, history_after, Decision, Rules, Verdict};
use crate::detector::{expired, never_bannable, prune, recorded};
use crate::detector_laws::{
    in_order, law_prune_leaves_the_window, law_record_appends,
    law_recorded_is_what_lies_within_the_window, lemma_prune_by_length, lemma_prune_keeps_end,
    lemma_prune_twice, within,
};
use crate::ip::Address;
use crate::nft::{ban_script, script_command};
use crate::time::{Duration, Instant};

verus! {

/// What is remembered of `a` after its failures at `times`, from nothing.
pub open spec fn history_of(rules: Rules, a: Address, times: Seq<Instant>) -> Seq<Instant>
    decreases times.len(),
{
    if times.len() == 0 {
        Seq::<Instant>::empty()
    } else {
        history_after(rules, history_of(rules, a, times.drop_last()), a, times.last())
    }
}

/// The decision on the last of the failures at `times`.
pub open spec fn last_decision(rules: Rules, a: Address, times: Seq<Instant>) -> Decision {
    decide(rules, history_of(rules, a, times.drop_last()), a, times.last())
}

/// The rules can lead to a ban of `a`.
pub open spec fn bannable(rules: Rules, a: Address) -> bool {
    !never_bannable(a) && !rules.allowlist.contains(a)
}

/// A loopback or private address is never banned, and its failures are not even
/// counted, whatever the rules say and whatever came before.
pub proof fn law_protected_is_never_banned(
    rules: Rules,
    history: Seq<Instant>,
    a: Address,
    now: Instant,
)
    requires
        never_bannable(a),
    ensures
        decide(rules, history, a, now) == Decision::Protected,
        history_after(rules, history, a, now) == history,
{
}

/// An address on the allowlist is never banned, and its failures are not even
/// counted.
pub proof fn law_allowlisted_is_never_banned(
    rules: Rules,
    history: Seq<Instant>,
    a: Address,
    now: Instant,
)
    requires
        rules.allowlist.contains(a),
    ensures
        !(decide(rules, history, a, now) is Ban),
        !(decide(rules, history, a, now) is WouldBan),
        history_after(rules, history, a, now) == history,
{
}

/// A dry run bans nobody.
pub proof fn law_dry_run_never_bans(
    rules: Rules,
    history: Seq<Instant>,
    a: Address,
    now: Instant,
)
    requires
        rules.dry_run,
    ensures
        !(decide(rules, history, a, now) is Ban),
{
}

/// The rules agree but for whether this is a dry run, as those of two daemons of
/// one configuration do.
pub open spec fn same_but_for_dry_run(dry: Rules, live: Rules) -> bool {
    &&& dry.dry_run
    &&& !live.dry_run
    &&& dry.threshold == live.threshold
    &&& dry.window.total() == live.window.total()
    &&& dry.ban_secs == live.ban_secs
    &&& dry.allowlist == live.allowlist
}

/// A dry run counts as a real one does, and reports exactly the bans that a real
/// one would carry out.
pub proof fn law_dry_run_tells_the_truth(
    dry: Rules,
    live: Rules,
    history: Seq<Instant>,
    a: Address,
    now: Instant,
)
    requires
        same_but_for_dry_run(dry, live),
    ensures
        decide(dry, history, a, now) == match decide(live, history, a, now) {
            Decision::Ban(_) => Decision::WouldBan,
            other => other,
        },
        history_after(dry, history, a, now) == history_after(live, history, a, now),
{
    lemma_prune_by_length(history.push(now), now, dry.window, live.window);
}

/// Once an address is to be banned, its count starts anew.
pub proof fn law_ban_restarts_the_count(
    rules: Rules,
    history: Seq<Instant>,
    a: Address,
    now: Instant,
)
    requires
        decide(rules, history, a, now) is Ban || decide(rules, history, a, now) is WouldBan,
    ensures
        history_after(rules, history, a, now) == Seq::<Instant>::empty(),
{
}

/// As long as a burst that fits the window stays under the threshold, all of it is
/// remembered.
proof fn lemma_burst(rules: Rules, a: Address, times: Seq<Instant>)
    requires
        bannable(rules, a),
        in_order(times),
        times.len() < rules.threshold,
        times.len() > 0 ==> !expired(times[0], times.last(), rules.window),
    ensures
        history_of(rules, a, times) == times,
    decreases times.len(),
{
    if times.len() > 0 {
        let front = times.drop_last();
        lemma_burst(rules, a, front);
        assert(front.push(times.last()) =~= times);
        assert(recorded(front, times.last(), rules.window) == times);
    } else {
        assert(times =~= Seq::<Instant>::empty());
    }
}

/// An address that may be banned and fails as often as the threshold says, within
/// the window, is banned on the last of these failures and not before, for as long
/// as configured.
pub proof fn law_threshold_failures_lead_to_a_ban(rules: Rules, a: Address, times: Seq<Instant>)
    requires
        bannable(rules, a),
        !rules.dry_run,
        in_order(times),
        times.len() > 0,
        times.len() == rules.threshold,
        !expired(times[0], times.last(), rules.window),
    ensures
        last_decision(rules, a, times) == Decision::Ban(ban_command(a, rules.ban_secs)),
        forall|k: int|
            1 <= k < times.len() ==> last_decision(rules, a, #[trigger] times.take(k))
                == Decision::Counted,
{
    let front = times.drop_last();
    lemma_burst(rules, a, front);
    assert(front.push(times.last()) =~= times);
    assert(recorded(front, times.last(), rules.window) == times);
    assert forall|k: int| 1 <= k < times.len() implies last_decision(
        rules,
        a,
        #[trigger] times.take(k),
    ) == Decision::Counted by {
        let some = times.take(k);
        lemma_burst(rules, a, some.drop_last());
        assert(some.drop_last().push(some.last()) =~= some);
        assert(recorded(some.drop_last(), some.last(), rules.window) == some);
    }
}

/// What is remembered is the end of what happened.
proof fn lemma_history_is_suffix(rules: Rules, a: Address, times: Seq<Instant>) -> (k: int)
    ensures
        0 <= k <= times.len(),
        history_of(rules, a, times) == times.skip(k),
    decreases times.len(),
{
    if times.len() == 0 {
        assert(times.skip(0) =~= Seq::<Instant>::empty());
        0
    } else {
        let front = times.drop_last();
        let now = times.last();
        let j = lemma_history_is_suffix(rules, a, front);
        match decide(rules, front.skip(j), a, now) {
            Decision::Counted => {
                let i = lemma_prune_keeps_end(front.skip(j).push(now), now, rules.window);
                assert(front.skip(j).push(now) =~= times.skip(j));
                assert(times.skip(j).skip(i) =~= times.skip(j + i));
                j + i
            },
            Decision::Protected | Decision::Allowlisted => {
                lemma_uncounted(rules, a, times);
                assert(times.skip(times.len() as int) =~= Seq::<Instant>::empty());
                times.len() as int
            },
            Decision::WouldBan | Decision::Ban(_) => {
                assert(times.skip(times.len() as int) =~= Seq::<Instant>::empty());
                times.len() as int
            },
        }
    }
}

/// Nothing is remembered of an address that cannot be banned.
proof fn lemma_uncounted(rules: Rules, a: Address, times: Seq<Instant>)
    requires
        !bannable(rules, a),
    ensures
        history_of(rules, a, times) == Seq::<Instant>::empty(),
    decreases times.len(),
{
    if times.len() > 0 {
        lemma_uncounted(rules, a, times.drop_last());
    }
}

/// Nobody is banned, or reported in a dry run, who has not failed as often as the
/// threshold says within the window that ends now.
pub proof fn law_ban_is_earned(rules: Rules, a: Address, times: Seq<Instant>)
    requires
        times.len() > 0,
        in_order(times),
        last_decision(rules, a, times) is Ban || last_decision(rules, a, times) is WouldBan,
    ensures
        bannable(rules, a),
        1 <= rules.threshold <= times.len(),
        forall|i: int|
            times.len() - rules.threshold <= i < times.len() ==> !expired(
                #[trigger] times[i],
                times.last(),
                rules.window,
            ),
{
    let front = times.drop_last();
    let now = times.last();
    let j = lemma_history_is_suffix(rules, a, front);
    let i = lemma_prune_keeps_end(front.skip(j).push(now), now, rules.window);
    assert(front.skip(j).push(now) =~= times.skip(j));
    assert(times.skip(j).skip(i) =~= times.skip(j + i));
    law_record_appends(front.skip(j), now, rules.window);
    assert(times.len() - rules.threshold == j + i);
    assert(times.skip(j)[i] == times[j + i]);
}

/// The failures of an address since its last ban: one that makes as many within
/// the window as the threshold says leads to a ban, and is counted off with those
/// before it.
pub open spec fn since_ban(threshold: usize, window: Duration, times: Seq<Instant>) -> Seq<Instant>
    decreases times.len(),
{
    if times.len() == 0 {
        Seq::<Instant>::empty()
    } else {
        let all = since_ban(threshold, window, times.drop_last()).push(times.last());
        if within(all, times.last(), window).len() == threshold {
            Seq::<Instant>::empty()
        } else {
            all
        }
    }
}

proof fn lemma_since_ban_is_suffix(
    threshold: usize,
    window: Duration,
    times: Seq<Instant>,
) -> (k: int)
    ensures
        0 <= k <= times.len(),
        since_ban(threshold, window, times) == times.skip(k),
    decreases times.len(),
{
    if times.len() == 0 {
        assert(times.skip(0) =~= Seq::<Instant>::empty());
        0
    } else {
        let j = lemma_since_ban_is_suffix(threshold, window, times.drop_last());
        let all = times.drop_last().skip(j).push(times.last());
        assert(all =~= times.skip(j));
        if within(all, times.last(), window).len() == threshold {
            assert(times.skip(times.len() as int) =~= Seq::<Instant>::empty());
            times.len() as int
        } else {
            j
        }
    }
}

/// What is remembered is what lies within the window of the failures since the
/// last ban.
proof fn lemma_history_since_ban(rules: Rules, a: Address, times: Seq<Instant>)
    requires
        bannable(rules, a),
        in_order(times),
        times.len() > 0,
    ensures
        history_of(rules, a, times) == prune(
            since_ban(rules.threshold, rules.window, times),
            times.last(),
            rules.window,
        ),
        recorded(history_of(rules, a, times.drop_last()), times.last(), rules.window) == within(
            since_ban(rules.threshold, rules.window, times.drop_last()).push(times.last()),
            times.last(),
            rules.window,
        ),
    decreases times.len(),
{
    let front = times.drop_last();
    let now = times.last();
    let w = rules.window;
    let since = since_ban(rules.threshold, w, front);
    let history = history_of(rules, a, front);
    assert(prune(history.push(now), now, w) == prune(since.push(now), now, w)) by {
        if front.len() > 0 {
            assert(in_order(front));
            lemma_history_since_ban(rules, a, front);
            assert(front.last().nanos() <= now.nanos());
            lemma_prune_twice(since, seq![now], front.last(), now, w);
            assert(history + seq![now] =~= history.push(now));
            assert(since + seq![now] =~= since.push(now));
        } else {
            assert(history =~= since);
        }
    }
    assert(prune(since.push(now), now, w) == within(since.push(now), now, w)) by {
        let k = lemma_since_ban_is_suffix(rules.threshold, w, front);
        assert(since.push(now) =~= times.skip(k));
        assert(in_order(times.skip(k)));
        law_prune_leaves_the_window(since.push(now), now, w);
    }
    assert(history_of(rules, a, times) == history_after(rules, history, a, now));
    assert(since_ban(rules.threshold, w, times) == if within(since.push(now), now, w).len()
        == rules.threshold {
        Seq::<Instant>::empty()
    } else {
        since.push(now)
    });
}

/// A failure of an address that may be banned leads to a ban exactly when the
/// failures since the last ban that lie within the window number the threshold,
/// this one included.
pub proof fn law_ban_exactly_at_the_threshold(rules: Rules, a: Address, times: Seq<Instant>)
    requires
        bannable(rules, a),
        in_order(times),
        times.len() > 0,
    ensures
        within(
            since_ban(rules.threshold, rules.window, times.drop_last()).push(times.last()),
            times.last(),
            rules.window,
        ).len() == rules.threshold <==> last_decision(rules, a, times) == if rules.dry_run {
            Decision::WouldBan
        } else {
            Decision::Ban(ban_command(a, rules.ban_secs))
        },
        within(
            since_ban(rules.threshold, rules.window, times.drop_last()).push(times.last()),
            times.last(),
            rules.window,
        ).len() != rules.threshold <==> last_decision(rules, a, times) == Decision::Counted,
{
    lemma_history_since_ban(rules, a, times);
}

// ---------------------------------------------------------------------------
// Failures of several addresses
// ---------------------------------------------------------------------------

/// What is remembered of `a` after failures of any addresses, one by one, from
/// nothing: a failure of another address changes nothing, as `Daemon::observe`
/// has it.
pub open spec fn history_in(
    rules: Rules,
    failures: Seq<(Address, Instant)>,
    a: Address,
) -> Seq<Instant>
    decreases failures.len(),
{
    if failures.len() == 0 {
        Seq::<Instant>::empty()
    } else {
        let before = history_in(rules, failures.drop_last(), a);
        if failures.last().0 == a {
            history_after(rules, before, a, failures.last().1)
        } else {
            before
        }
    }
}

/// When `a` failed, among failures of any addresses.
pub open spec fn times_of(failures: Seq<(Address, Instant)>, a: Address) -> Seq<Instant>
    decreases failures.len(),
{
    if failures.len() == 0 {
        Seq::<Instant>::empty()
    } else {
        let before = times_of(failures.drop_last(), a);
        if failures.last().0 == a {
            before.push(failures.last().1)
        } else {
            before
        }
    }
}

/// What is remembered of an address depends on its own failures alone, however they
/// are mixed with those of others.
pub proof fn law_addresses_are_independent(
    rules: Rules,
    failures: Seq<(Address, Instant)>,
    a: Address,
)
    ensures
        history_in(rules, failures, a) == history_of(rules, a, times_of(failures, a)),
    decreases failures.len(),
{
    if failures.len() > 0 {
        law_addresses_are_independent(rules, failures.drop_last(), a);
        let before = times_of(failures.drop_last(), a);
        if failures.last().0 == a {
            assert(before.push(failures.last().1).drop_last() =~= before);
        }
    }
}

/// The decision on the last of the failures.
pub open spec fn decision_in(rules: Rules, failures: Seq<(Address, Instant)>) -> Decision {
    let (a, now) = failures.last();
    decide(rules, history_in(rules, failures.drop_last(), a), a, now)
}

/// Over a whole run of failures, of any addresses, a dry run remembers what a real
/// one does, decides every failure alike, and reports the bans that a real one
/// carries out.
pub proof fn law_dry_run_tells_the_truth_throughout(
    dry: Rules,
    live: Rules,
    failures: Seq<(Address, Instant)>,
)
    requires
        same_but_for_dry_run(dry, live),
    ensures
        forall|a: Address| #[trigger] history_in(dry, failures, a) == history_in(live, failures, a),
        failures.len() > 0 ==> decision_in(dry, failures) == match decision_in(live, failures) {
            Decision::Ban(_) => Decision::WouldBan,
            other => other,
        },
    decreases failures.len(),
{
    if failures.len() > 0 {
        let front = failures.drop_last();
        let (b, now) = failures.last();
        law_dry_run_tells_the_truth_throughout(dry, live, front);
        assert(history_in(dry, front, b) == history_in(live, front, b));
        law_dry_run_tells_the_truth(dry, live, history_in(live, front, b), b, now);
        assert forall|a: Address| #[trigger]
            history_in(dry, failures, a) == history_in(live, failures, a) by {
            assert(history_in(dry, front, a) == history_in(live, front, a));
        }
    }
}

// ---------------------------------------------------------------------------
// One failure
// ---------------------------------------------------------------------------

/// What a failure leads to, and when: nothing for a protected address, nothing for one on
/// the allowlist, and else a ban exactly if it is the one that makes as many as the
/// threshold says of those that are remembered. Until then, what is remembered grows by
/// it.
pub proof fn law_decision(rules: Rules, history: Seq<Instant>, a: Address, now: Instant)
    ensures
        ({
            let d = decide(rules, history, a, now);
            let kept = recorded(history, now, rules.window);
            let counts = !never_bannable(a) && !rules.allowlist.contains(a);
            &&& d is Protected <==> never_bannable(a)
            &&& d is Allowlisted <==> !never_bannable(a) && rules.allowlist.contains(a)
            &&& d is Counted <==> counts && kept.len() != rules.threshold
            &&& d is WouldBan <==> counts && kept.len() == rules.threshold && rules.dry_run
            &&& d is Ban <==> counts && kept.len() == rules.threshold && !rules.dry_run
            &&& !counts ==> history_after(rules, history, a, now) == history
            &&& d is Counted ==> history_after(rules, history, a, now) == kept
            &&& d is Ban || d is WouldBan ==> history_after(rules, history, a, now).len() == 0
            &&& d is Ban && rules.ban_secs > 0 ==> d->Ban_0 == script_command(
                ban_script(a, rules.ban_secs as nat),
            )
            &&& d is Ban && rules.ban_secs == 0 ==> d->Ban_0 == script_command(ban_script(a, 1))
        }),
{
}

/// What is run to ban an address: a script that bans it for as many seconds as asked for,
/// and for one if that is none.
pub proof fn law_ban_command(a: Address, secs: u64)
    ensures
        secs > 0 ==> ban_command(a, secs) == script_command(ban_script(a, secs as nat)),
        secs == 0 ==> ban_command(a, secs) == script_command(ban_script(a, 1)),
{
}

/// A verdict is viewed as what it is.
pub proof fn law_verdict_is_viewed_as_it_is(v: Verdict)
    ensures
        v is Protected <==> v@ is Protected,
        v is Allowlisted <==> v@ is Allowlisted,
        v is Counted <==> v@ is Counted,
        v is WouldBan <==> v@ is WouldBan,
        v is Ban <==> v@ is Ban,
        v is Ban ==> v@->Ban_0 == v->Ban_0@,
{
}

/// An address may be banned exactly if it is neither protected nor on the allowlist.
pub proof fn law_bannable(rules: Rules, a: Address)
    ensures
        bannable(rules, a) <==> !(never_bannable(a) || rules.allowlist.contains(a)),
{
}

/// A failure of an address that may be banned, at `now`, after failures of it in the order
/// of time since its last ban, leads to a ban exactly when, of all of them, as many as the
/// threshold says lie no further back than the window is long.
pub proof fn law_ban_when_enough_lie_within_the_window(
    rules: Rules,
    history: Seq<Instant>,
    a: Address,
    now: Instant,
)
    requires
        !never_bannable(a),
        !rules.allowlist.contains(a),
        forall|i: int, j: int|
            0 <= i <= j < history.len() ==> history[i].nanos() <= history[j].nanos(),
        history.len() > 0 ==> history.last().nanos() <= now.nanos(),
    ensures
        history.push(now).filter(
            |t: Instant| now.nanos() - t.nanos() <= rules.window.total(),
        ).len() == rules.threshold <==> decide(rules, history, a, now) is Ban || decide(
            rules,
            history,
            a,
            now,
        ) is WouldBan,
{
    law_recorded_is_what_lies_within_the_window(history, now, rules.window);
}

} // verus!
