//! What the failure tracker's rule amounts to over any run of failures.

use vstd::prelude::*;

use crate::detector::{
    captured, captures_in, expired, first_address, never_bannable, no_address, offender_in, pattern_texts,
    phrases, prune, recorded, regex_capture, texts, CLOSED_PREAUTH, DISCONNECT_PREAUTH,
    FAILED_PASSWORD, INVALID_USER, IP_GROUP,
};
use crate::ip::{parse_address, Address};
use crate::text::{occurs, occurs_at};
use crate::time::{Duration, Instant};

verus! {

/// The failures are in the order of time, as a monotonic clock gives them.
pub open spec fn in_order(times: Seq<Instant>) -> bool {
    forall|i: int, j: int| 0 <= i <= j < times.len() ==> times[i].nanos() <= times[j].nanos()
}

/// The failures that lie within the window that ends at `now`.
pub open spec fn within(times: Seq<Instant>, now: Instant, window: Duration) -> Seq<Instant> {
    times.filter(|t: Instant| !expired(t, now, window))
}

/// What is remembered of one address after the failures `times`, one by one,
/// from nothing.
pub open spec fn remembered(times: Seq<Instant>, window: Duration) -> Seq<Instant>
    decreases times.len(),
{
    if times.len() == 0 {
        Seq::<Instant>::empty()
    } else {
        recorded(remembered(times.drop_last(), window), times.last(), window)
    }
}

/// Recording the failure `now` after `times` reaches the threshold: this is what
/// `FailureTracker::record` returns.
pub open spec fn reaches(
    times: Seq<Instant>,
    now: Instant,
    window: Duration,
    threshold: usize,
) -> bool {
    recorded(times, now, window).len() == threshold
}

/// Recording a failure drops what has expired and appends the failure.
pub proof fn law_record_appends(times: Seq<Instant>, now: Instant, window: Duration)
    ensures
        recorded(times, now, window) == prune(times, now, window).push(now),
    decreases times.len(),
{
    let all = times.push(now);
    if times.len() == 0 {
        assert(all[0] == now);
    } else {
        assert(all[0] == times[0]);
        if expired(times[0], now, window) {
            law_record_appends(times.drop_first(), now, window);
            assert(all.drop_first() =~= times.drop_first().push(now));
        }
    }
}

/// A failure is reported exactly when it takes the count within the window from
/// under the threshold to the threshold: not before, and not again while the count
/// stays at or over it.
pub proof fn law_reported_on_the_edge(
    times: Seq<Instant>,
    now: Instant,
    window: Duration,
    threshold: usize,
)
    ensures
        reaches(times, now, window, threshold) <==> prune(times, now, window).len() < threshold
            <= recorded(times, now, window).len(),
{
    law_record_appends(times, now, window);
}

/// A threshold of zero is never reached.
pub proof fn law_zero_threshold_is_never_reached(
    times: Seq<Instant>,
    now: Instant,
    window: Duration,
)
    ensures
        !reaches(times, now, window, 0),
{
    law_record_appends(times, now, window);
}

/// Recording a failure that is not earlier than those before it keeps the order
/// of time.
pub proof fn law_record_keeps_order(times: Seq<Instant>, now: Instant, window: Duration)
    requires
        in_order(times.push(now)),
    ensures
        in_order(recorded(times, now, window)),
{
    let k = lemma_prune_keeps_end(times.push(now), now, window);
    assert(in_order(times.push(now).skip(k)));
}

/// What is left after pruning is the end of the failures, from the first one that
/// has not expired on.
pub proof fn lemma_prune_keeps_end(times: Seq<Instant>, now: Instant, window: Duration) -> (k: int)
    ensures
        0 <= k <= times.len(),
        prune(times, now, window) == times.skip(k),
        k < times.len() ==> !expired(times[k], now, window),
    decreases times.len(),
{
    if times.len() > 0 && expired(times[0], now, window) {
        let i = lemma_prune_keeps_end(times.drop_first(), now, window);
        assert(times.drop_first().skip(i) =~= times.skip(i + 1));
        i + 1
    } else {
        assert(times.skip(0) =~= times);
        0
    }
}

/// Only how long a window is matters.
pub proof fn lemma_prune_by_length(
    times: Seq<Instant>,
    now: Instant,
    window: Duration,
    other: Duration,
)
    requires
        window.total() == other.total(),
    ensures
        prune(times, now, window) == prune(times, now, other),
    decreases times.len(),
{
    if times.len() > 0 && expired(times[0], now, window) {
        lemma_prune_by_length(times.drop_first(), now, window, other);
    }
}

/// Dropping the expired failures from the front leaves those within the window,
/// all of them and no others.
pub proof fn law_prune_leaves_the_window(times: Seq<Instant>, now: Instant, window: Duration)
    requires
        in_order(times),
    ensures
        prune(times, now, window) == within(times, now, window),
    decreases times.len(),
{
    let keep = |t: Instant| !expired(t, now, window);
    if times.len() == 0 {
        reveal(Seq::filter);
        assert(times.filter(keep) =~= times);
    } else {
        let rest = times.drop_first();
        assert(times =~= seq![times[0]] + rest);
        if expired(times[0], now, window) {
            law_prune_leaves_the_window(rest, now, window);
            lemma_filter_front(times[0], rest, keep);
        } else {
            lemma_filter_all(times, keep);
        }
    }
}

proof fn lemma_filter_front(t: Instant, rest: Seq<Instant>, keep: spec_fn(Instant) -> bool)
    requires
        !keep(t),
    ensures
        (seq![t] + rest).filter(keep) == rest.filter(keep),
    decreases rest.len(),
{
    reveal(Seq::filter);
    let s = seq![t] + rest;
    if rest.len() == 0 {
        assert(s.drop_last() =~= Seq::<Instant>::empty());
        assert(s.last() == t);
        assert(Seq::<Instant>::empty().filter(keep) =~= Seq::<Instant>::empty());
        assert(rest =~= Seq::<Instant>::empty());
    } else {
        lemma_filter_front(t, rest.drop_last(), keep);
        assert(s.drop_last() =~= seq![t] + rest.drop_last());
    }
}

proof fn lemma_filter_all(times: Seq<Instant>, keep: spec_fn(Instant) -> bool)
    requires
        forall|i: int| 0 <= i < times.len() ==> keep(#[trigger] times[i]),
    ensures
        times.filter(keep) == times,
    decreases times.len(),
{
    reveal(Seq::filter);
    if times.len() > 0 {
        lemma_filter_all(times.drop_last(), keep);
        assert(times.drop_last().push(times.last()) =~= times);
    } else {
        assert(times.filter(keep) =~= times);
    }
}

/// What expired earlier is expired later too, so it makes no difference when it
/// was dropped.
pub proof fn lemma_prune_twice(
    times: Seq<Instant>,
    more: Seq<Instant>,
    then: Instant,
    now: Instant,
    window: Duration,
)
    requires
        then.nanos() <= now.nanos(),
    ensures
        prune(prune(times, then, window) + more, now, window) == prune(times + more, now, window),
    decreases times.len(),
{
    if times.len() > 0 && expired(times[0], then, window) {
        lemma_prune_twice(times.drop_first(), more, then, now, window);
        assert((times + more)[0] == times[0]);
        assert((times + more).drop_first() =~= times.drop_first() + more);
    }
}

/// Recording a failure forgets, from the oldest on, those that lie further back than the
/// window is long, up to the first that does not; it is remembered itself, and so is
/// everything between.
pub proof fn law_recorded_drops_what_left_the_window(
    times: Seq<Instant>,
    now: Instant,
    window: Duration,
)
    ensures
        exists|k: int|
            0 <= k <= times.len() && recorded(times, now, window) == #[trigger] times.push(
                now,
            ).skip(k) && (forall|i: int|
                0 <= i < k ==> now.nanos() - (#[trigger] times[i]).nanos() > window.total()) && (k
                < times.len() ==> now.nanos() - times[k].nanos() <= window.total()),
{
    let all = times.push(now);
    let k = lemma_prune_keeps_end(all, now, window);
    lemma_pruned_have_expired(all, now, window, k);
    assert(k <= times.len()) by {
        if k > times.len() {
            assert(expired(all[times.len() as int], now, window));
        }
    }
    assert forall|i: int| 0 <= i < k implies now.nanos() - (#[trigger] times[i]).nanos()
        > window.total() by {
        assert(all[i] == times[i]);
        assert(expired(all[i], now, window));
    }
    if k < times.len() {
        assert(all[k] == times[k]);
    }
    assert(recorded(times, now, window) == times.push(now).skip(k));
}

/// Of failures in the order of time, exactly those are remembered that lie no further
/// back than the window is long.
pub proof fn law_recorded_is_what_lies_within_the_window(
    times: Seq<Instant>,
    now: Instant,
    window: Duration,
)
    requires
        forall|i: int, j: int| 0 <= i <= j < times.len() ==> times[i].nanos() <= times[j].nanos(),
        times.len() > 0 ==> times.last().nanos() <= now.nanos(),
    ensures
        recorded(times, now, window) == times.push(now).filter(
            |t: Instant| now.nanos() - t.nanos() <= window.total(),
        ),
{
    let all = times.push(now);
    assert forall|i: int, j: int| 0 <= i <= j < all.len() implies all[i].nanos()
        <= all[j].nanos() by {
        if j == times.len() && i < times.len() {
            assert(times[i].nanos() <= times[times.len() - 1].nanos());
        }
    }
    law_prune_leaves_the_window(all, now, window);
    let keep = |t: Instant| !expired(t, now, window);
    let near = |t: Instant| now.nanos() - t.nanos() <= window.total();
    assert(keep =~= near);
}

proof fn lemma_pruned_have_expired(times: Seq<Instant>, now: Instant, window: Duration, k: int)
    requires
        0 <= k <= times.len(),
        prune(times, now, window) == times.skip(k),
    ensures
        forall|i: int| 0 <= i < k ==> expired(#[trigger] times[i], now, window),
    decreases times.len(),
{
    if k > 0 {
        if expired(times[0], now, window) {
            let rest = times.drop_first();
            assert(times.skip(k) =~= rest.skip(k - 1));
            lemma_pruned_have_expired(rest, now, window, k - 1);
            assert forall|i: int| 0 <= i < k implies expired(#[trigger] times[i], now, window) by {
                if i > 0 {
                    assert(rest[i - 1] == times[i]);
                }
            }
        } else {
            assert(times.skip(k).len() < times.len());
        }
    }
}

/// Over a run of failures of one address, in the order of time and from nothing, the last
/// one is reported exactly when as many as the threshold says, itself included, lie no
/// further back from it than the window is long.
pub proof fn law_reported_when_enough_lie_within_the_window(
    times: Seq<Instant>,
    window: Duration,
    threshold: usize,
)
    requires
        times.len() > 0,
        forall|i: int, j: int| 0 <= i <= j < times.len() ==> times[i].nanos() <= times[j].nanos(),
    ensures
        recorded(remembered(times.drop_last(), window), times.last(), window).len() == threshold
            <==> times.filter(
            |t: Instant| times.last().nanos() - t.nanos() <= window.total(),
        ).len() == threshold,
        remembered(times, window) == recorded(
            remembered(times.drop_last(), window),
            times.last(),
            window,
        ),
        remembered(Seq::<Instant>::empty(), window).len() == 0,
{
    law_remembers_the_window(times, window);
    let keep = |t: Instant| !expired(t, times.last(), window);
    let near = |t: Instant| times.last().nanos() - t.nanos() <= window.total();
    assert(keep =~= near);
}

/// After any run of failures in the order of time, exactly those within the
/// window that ends at the last one are remembered.
pub proof fn law_remembers_the_window(times: Seq<Instant>, window: Duration)
    requires
        times.len() > 0,
        in_order(times),
    ensures
        remembered(times, window) == within(times, times.last(), window),
{
    lemma_remembered(times, window);
    law_prune_leaves_the_window(times, times.last(), window);
}

proof fn lemma_remembered(times: Seq<Instant>, window: Duration)
    requires
        times.len() > 0,
        in_order(times),
    ensures
        remembered(times, window) == prune(times, times.last(), window),
    decreases times.len(),
{
    let front = times.drop_last();
    let now = times.last();
    assert(front.push(now) =~= times);
    if front.len() == 0 {
        assert(remembered(front, window) =~= front);
    } else {
        lemma_remembered(front, window);
        lemma_prune_twice(front, seq![now], front.last(), now, window);
        let kept = prune(front, front.last(), window);
        assert(kept + seq![now] =~= kept.push(now));
        assert(front + seq![now] =~= times);
    }
}

/// The last of a run of failures in the order of time is reported exactly when
/// the failures within the window that ends there number the threshold.
pub proof fn law_reported_by_count(times: Seq<Instant>, window: Duration, threshold: usize)
    requires
        times.len() > 0,
        in_order(times),
    ensures
        reaches(remembered(times.drop_last(), window), times.last(), window, threshold) <==> within(
            times,
            times.last(),
            window,
        ).len() == threshold,
{
    law_remembers_the_window(times, window);
}

/// In a burst that fits the window, the failure that makes the threshold is
/// reported, and no other one.
pub proof fn law_burst_is_reported_once(times: Seq<Instant>, window: Duration, threshold: usize)
    requires
        times.len() > 0,
        in_order(times),
        !expired(times[0], times.last(), window),
    ensures
        reaches(remembered(times.drop_last(), window), times.last(), window, threshold)
            <==> times.len() == threshold,
{
    lemma_remembered(times, window);
}

/// Failures that lie further apart than the window never add up: whoever fails
/// only so seldom is never reported, unless a single failure is enough.
pub proof fn law_spread_failures_never_add_up(
    times: Seq<Instant>,
    window: Duration,
    threshold: usize,
)
    requires
        times.len() > 0,
        in_order(times),
        times.len() > 1 ==> expired(times[times.len() - 2], times.last(), window),
    ensures
        remembered(times, window) == seq![times.last()],
        reaches(remembered(times.drop_last(), window), times.last(), window, threshold)
            <==> threshold == 1,
{
    lemma_remembered(times, window);
    lemma_prune_all_but_last(times, window);
}

proof fn lemma_prune_all_but_last(times: Seq<Instant>, window: Duration)
    requires
        times.len() > 0,
        in_order(times),
        times.len() > 1 ==> expired(times[times.len() - 2], times.last(), window),
    ensures
        prune(times, times.last(), window) == seq![times.last()],
    decreases times.len(),
{
    if times.len() > 1 {
        assert(times[0].nanos() <= times[times.len() - 2].nanos());
        lemma_prune_all_but_last(times.drop_first(), window);
    } else {
        assert(times =~= seq![times.last()]);
    }
}

// ---------------------------------------------------------------------------
// Addresses that are never banned
// ---------------------------------------------------------------------------

/// By their number, the protected IPv4 addresses are those from `10.0.0.0` to
/// `10.255.255.255`, from `127.0.0.0` to `127.255.255.255`, from `169.254.0.0` to
/// `169.254.255.255`, from `172.16.0.0` to `172.31.255.255` and from `192.168.0.0` to
/// `192.168.255.255`, all of them and no others.
pub proof fn law_protected_v4(o: Seq<u8>)
    requires
        o.len() == 4,
    ensures
        ({
            let n = o[0] * 0x100_0000 + o[1] * 0x1_0000 + o[2] * 0x100 + o[3];
            never_bannable(Address::V4(o)) <==> {
                ||| 0x0A00_0000 <= n <= 0x0AFF_FFFF
                ||| 0x7F00_0000 <= n <= 0x7FFF_FFFF
                ||| 0xA9FE_0000 <= n <= 0xA9FE_FFFF
                ||| 0xAC10_0000 <= n <= 0xAC1F_FFFF
                ||| 0xC0A8_0000 <= n <= 0xC0A8_FFFF
            }
        }),
{
}

/// The protected IPv6 addresses are those whose first seven bits are those of `fc00::`,
/// those whose first ten bits are those of `fe80::`, and the one whose number is 1.
pub proof fn law_protected_v6(g: Seq<u16>)
    requires
        g.len() == 8,
    ensures
        never_bannable(Address::V6(g)) <==> {
            ||| g[0] & 0xfe00 == 0xfc00
            ||| g[0] & 0xffc0 == 0xfe80
            ||| g[7] == 1 && forall|i: int| 0 <= i < 7 ==> g[i] == 0
        },
{
    let first = g[0];
    assert((first & 0xfe00 == 0xfc00) <==> (0xfc00 <= first && first <= 0xfdff)) by (bit_vector);
    assert((first & 0xffc0 == 0xfe80) <==> (0xfe80 <= first && first <= 0xfebf)) by (bit_vector);
    let one: Seq<u16> = seq![0u16, 0, 0, 0, 0, 0, 0, 1];
    assert(g =~= one <==> g[7] == 1 && forall|i: int| 0 <= i < 7 ==> g[i] == 0) by {
        if g =~= one {
            assert forall|i: int| 0 <= i < 7 implies g[i] == 0 by {
                assert(one[i] == 0);
            }
        }
    }
}

// ---------------------------------------------------------------------------
// The patterns
// ---------------------------------------------------------------------------

/// A capture group opens at `k`: a parenthesis that is not escaped and does not
/// begin `(?:`.
pub open spec fn opens_group(pattern: Seq<char>, k: int) -> bool {
    &&& pattern[k] == '('
    &&& !(k > 0 && pattern[k - 1] == '\\')
    &&& !(k + 2 < pattern.len() && pattern[k + 1] == '?' && pattern[k + 2] == ':')
}

/// How many capture groups open from `k` on.
pub open spec fn groups_from(pattern: Seq<char>, k: int) -> nat
    decreases pattern.len() - k,
{
    if k >= pattern.len() {
        0
    } else if opens_group(pattern, k) {
        1 + groups_from(pattern, k + 1)
    } else {
        groups_from(pattern, k + 1)
    }
}

/// The pattern begins with the phrase and has one capture group, whose name is the
/// one that is asked for.
pub open spec fn describes(pattern: Seq<char>, phrase: Seq<char>) -> bool {
    &&& occurs_at(phrase, pattern, 0)
    &&& groups_from(pattern, 0) == 1
    &&& occurs("(?P<"@ + IP_GROUP@ + ">"@, pattern)
}

proof fn lemma_failed_password()
    ensures
        describes(FAILED_PASSWORD@, "Failed password for "@),
{
    reveal_strlit("(?P<");
    reveal_strlit("ip");
    reveal_strlit(">");
    reveal_strlit(
        "Failed password for .* from (?P<ip>[0-9a-fA-F:.]+) port \\d+",
    );
    reveal_strlit("Failed password for ");
    let p = FAILED_PASSWORD@;
    let name = "(?P<"@ + IP_GROUP@ + ">"@;
    assert(groups_from(p, 0) == 1) by {
        reveal_with_fuel(groups_from, 61);
    }
    assert(p.subrange(28, 35) =~= name);
    assert(occurs_at(name, p, 28));
    assert(p.subrange(0, 20) =~= "Failed password for "@);
}

proof fn lemma_invalid_user()
    ensures
        describes(INVALID_USER@, "Invalid user "@),
{
    reveal_strlit("(?P<");
    reveal_strlit("ip");
    reveal_strlit(">");
    reveal_strlit(
        "Invalid user .* from (?P<ip>[0-9a-fA-F:.]+) port \\d+",
    );
    reveal_strlit("Invalid user ");
    let p = INVALID_USER@;
    let name = "(?P<"@ + IP_GROUP@ + ">"@;
    assert(groups_from(p, 0) == 1) by {
        reveal_with_fuel(groups_from, 54);
    }
    assert(p.subrange(21, 28) =~= name);
    assert(occurs_at(name, p, 21));
    assert(p.subrange(0, 13) =~= "Invalid user "@);
}

proof fn lemma_closed_preauth()
    ensures
        describes(CLOSED_PREAUTH@, "Connection closed by "@),
{
    reveal_strlit("(?P<");
    reveal_strlit("ip");
    reveal_strlit(">");
    reveal_strlit(
        "Connection closed by (?:invalid user .* |authenticating user .* )?(?P<ip>[0-9a-fA-F:.]+) port \\d+ \\[preauth\\]",
    );
    reveal_strlit("Connection closed by ");
    let p = CLOSED_PREAUTH@;
    let name = "(?P<"@ + IP_GROUP@ + ">"@;
    assert(groups_from(p, 80) == 0) by {
        reveal_with_fuel(groups_from, 40);
    }
    assert(groups_from(p, 40) == 1) by {
        reveal_with_fuel(groups_from, 42);
    }
    assert(groups_from(p, 0) == 1) by {
        reveal_with_fuel(groups_from, 42);
    }
    assert(p.subrange(66, 73) =~= name);
    assert(occurs_at(name, p, 66));
    assert(p.subrange(0, 21) =~= "Connection closed by "@);
}

proof fn lemma_disconnect_preauth()
    ensures
        describes(DISCONNECT_PREAUTH@, "Received disconnect from "@),
{
    reveal_strlit("(?P<");
    reveal_strlit("ip");
    reveal_strlit(">");
    reveal_strlit(
        "Received disconnect from (?P<ip>[0-9a-fA-F:.]+) port \\d+:\\d+:.*\\[preauth\\]",
    );
    reveal_strlit("Received disconnect from ");
    let p = DISCONNECT_PREAUTH@;
    let name = "(?P<"@ + IP_GROUP@ + ">"@;
    assert(groups_from(p, 0) == 1) by {
        reveal_with_fuel(groups_from, 76);
    }
    assert(p.subrange(25, 32) =~= name);
    assert(occurs_at(name, p, 25));
    assert(p.subrange(0, 25) =~= "Received disconnect from "@);
}

/// Every pattern begins with its phrase and has one capture group, for the address.
pub proof fn law_patterns_capture_the_address(i: int)
    requires
        0 <= i < pattern_texts().len(),
    ensures
        pattern_texts().len() == phrases().len() == 4,
        describes(pattern_texts()[i], phrases()[i]),
{
    lemma_failed_password();
    lemma_invalid_user();
    lemma_closed_preauth();
    lemma_disconnect_preauth();
}

/// The patterns, to the letter, in the order in which they are tried, and the group that
/// is asked for.
pub proof fn law_patterns()
    ensures
        pattern_texts() == seq![
            "Failed password for .* from (?P<ip>[0-9a-fA-F:.]+) port \\d+"@,
            "Invalid user .* from (?P<ip>[0-9a-fA-F:.]+) port \\d+"@,
            "Connection closed by (?:invalid user .* |authenticating user .* )?(?P<ip>[0-9a-fA-F:.]+) port \\d+ \\[preauth\\]"@,
            "Received disconnect from (?P<ip>[0-9a-fA-F:.]+) port \\d+:\\d+:.*\\[preauth\\]"@,
        ],
        FAILED_PASSWORD@ == pattern_texts()[0],
        INVALID_USER@ == pattern_texts()[1],
        CLOSED_PREAUTH@ == pattern_texts()[2],
        DISCONNECT_PREAUTH@ == pattern_texts()[3],
        IP_GROUP@ == "ip"@,
{
}

/// Whatever any of the four patterns captures that is an address is reported, and of
/// several such captures that of the earliest pattern. What is no address is passed over,
/// and where no capture is one, nothing is reported.
pub proof fn law_offender_is_the_first_capture_that_is_an_address(line: Seq<char>)
    ensures
        ({
            let address = |pattern: Seq<char>|
                match regex_capture(pattern, "ip"@, line) {
                    Some(Some(text)) => parse_address(text),
                    _ => None,
                };
            let a = address("Failed password for .* from (?P<ip>[0-9a-fA-F:.]+) port \\d+"@);
            let b = address("Invalid user .* from (?P<ip>[0-9a-fA-F:.]+) port \\d+"@);
            let c = address(
                "Connection closed by (?:invalid user .* |authenticating user .* )?(?P<ip>[0-9a-fA-F:.]+) port \\d+ \\[preauth\\]"@,
            );
            let d = address(
                "Received disconnect from (?P<ip>[0-9a-fA-F:.]+) port \\d+:\\d+:.*\\[preauth\\]"@,
            );
            offender_in(line) == if a is Some {
                a
            } else if b is Some {
                b
            } else if c is Some {
                c
            } else {
                d
            }
        }),
{
    let all = captures_in(line);
    assert(all[0] == captured(FAILED_PASSWORD@, line));
    assert(all[1] == captured(INVALID_USER@, line));
    assert(all[2] == captured(CLOSED_PREAUTH@, line));
    assert(all[3] == captured(DISCONNECT_PREAUTH@, line));
    assert(all.drop_first()[0] == all[1]);
    assert(all.drop_first().drop_first()[0] == all[2]);
    assert(all.drop_first().drop_first().drop_first()[0] == all[3]);
    reveal_with_fuel(first_address, 5);
}

/// Of captured texts, the first that is an address is reported: those before it are none.
pub proof fn law_first_address(captures: Seq<Option<Seq<char>>>, k: int)
    requires
        0 <= k <= captures.len(),
        forall|j: int|
            0 <= j < k && (#[trigger] captures[j]) is Some ==> parse_address(captures[j]->0) is None,
        k < captures.len() ==> captures[k] is Some && parse_address(captures[k]->0) is Some,
    ensures
        first_address(captures) == if k < captures.len() {
            parse_address(captures[k]->0)
        } else {
            None
        },
    decreases captures.len(),
{
    if k > 0 {
        let rest = captures.drop_first();
        assert forall|j: int|
            0 <= j < k - 1 && (#[trigger] rest[j]) is Some implies parse_address(rest[j]->0) is None by {
            assert(rest[j] == captures[j + 1]);
        }
        assert(captures[0] is Some ==> parse_address(captures[0]->0) is None);
        if k < captures.len() {
            assert(rest[k - 1] == captures[k]);
        }
        law_first_address(rest, k - 1);
    }
}

/// A pattern finds no address in a line exactly if it captures nothing, or no address.
pub proof fn law_no_address(pattern: Seq<char>, line: Seq<char>)
    ensures
        no_address(pattern, line) <==> !(exists|text: Seq<char>|
            regex_capture(pattern, "ip"@, line) == Some(Some(text)) && (
            #[trigger] parse_address(text)) is Some),
{
    match regex_capture(pattern, "ip"@, line) {
        Some(Some(text)) => {
            assert(parse_address(text) is None || parse_address(text) is Some);
        },
        _ => {},
    }
}

/// Optional strings are viewed one by one.
pub proof fn law_texts(v: Seq<Option<String>>, i: int)
    ensures
        texts(v).len() == v.len(),
        0 <= i < v.len() ==> (texts(v)[i] is Some <==> v[i] is Some) && (v[i] is Some ==> texts(
            v,
        )[i]->0 == v[i]->0@),
{
}

} // verus!
