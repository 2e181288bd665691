//! Turns journal lines into ban decisions: which lines report an authentication
//! failure, which address each one names, which addresses can never be banned,
//! and when an address has failed often enough within the window.

use std::collections::{HashMap, VecDeque};

use vstd::prelude::*;

use crate::detector_laws::law_recorded_drops_what_left_the_window;
use crate::ip::{address_text, is_address_char, parse_address, Address, IpAddr};
use crate::ip_laws::{law_text_characters, law_text_round_trip};
use crate::text::{dec, is_decimal_digit, is_digit, lacks, lemma_digits, occurs, occurs_at};
use crate::time::{Duration, Instant};

verus! {

// ---------------------------------------------------------------------------
// Offenders in journal lines
// ---------------------------------------------------------------------------

/// A password was refused.
pub const FAILED_PASSWORD: &'static str =
    "Failed password for .* from (?P<ip>[0-9a-fA-F:.]+) port \\d+";

/// The user does not exist.
pub const INVALID_USER: &'static str = "Invalid user .* from (?P<ip>[0-9a-fA-F:.]+) port \\d+";

/// The peer hung up before it had authenticated.
pub const CLOSED_PREAUTH: &'static str =
    "Connection closed by (?:invalid user .* |authenticating user .* )?(?P<ip>[0-9a-fA-F:.]+) port \\d+ \\[preauth\\]";

/// The peer disconnected before it had authenticated.
pub const DISCONNECT_PREAUTH: &'static str =
    "Received disconnect from (?P<ip>[0-9a-fA-F:.]+) port \\d+:\\d+:.*\\[preauth\\]";

/// The capture group that holds the address in every pattern.
pub const IP_GROUP: &'static str = "ip";

/// The patterns of lines that report a failed or rejected attempt, in the order
/// in which they are tried.
pub open spec fn pattern_texts() -> Seq<Seq<char>> {
    seq![FAILED_PASSWORD@, INVALID_USER@, CLOSED_PREAUTH@, DISCONNECT_PREAUTH@]
}

/// What the group `group` of the regular expression `pattern` captures at the
/// leftmost match in `haystack`: `None` if the pattern does not compile,
/// `Some(None)` if there is no match or the group took no part in it.
pub uninterp spec fn regex_capture(
    pattern: Seq<char>,
    group: Seq<char>,
    haystack: Seq<char>,
) -> Option<Option<Seq<char>>>;

/// What the patterns begin with, in the same order.
pub open spec fn phrases() -> Seq<Seq<char>> {
    seq![
        "Failed password for "@,
        "Invalid user "@,
        "Connection closed by "@,
        "Received disconnect from "@,
    ]
}

/// In `line` the phrase stands at `m`, and after it, from `i` up to `j`, the
/// characters of an address, directly followed by ` port ` and a digit.
pub open spec fn names_at(phrase: Seq<char>, line: Seq<char>, m: int, i: int, j: int) -> bool {
    &&& occurs_at(phrase, line, m)
    &&& m + phrase.len() <= i < j
    &&& forall|k: int| i <= k < j ==> is_address_char(#[trigger] line[k])
    &&& occurs_at(" port "@, line, j)
    &&& j + 6 < line.len()
    &&& is_decimal_digit(line[j + 6])
}

/// `line` is `pre`, ` from `, the characters `t` of an address, ` port ` and `rest`,
/// which begins with a digit; ` from ` does not occur again, and `pre` is on one
/// line.
pub open spec fn ends_in_source(
    line: Seq<char>,
    pre: Seq<char>,
    t: Seq<char>,
    rest: Seq<char>,
) -> bool {
    &&& line == pre + " from "@ + t + " port "@ + rest
    &&& lacks(pre, '\n')
    &&& t.len() > 0
    &&& forall|k: int| 0 <= k < t.len() ==> is_address_char(#[trigger] t[k])
    &&& rest.len() > 0
    &&& is_decimal_digit(rest[0])
    &&& !occurs(" from "@, rest)
}

/// `phrase` stands in `line` at `m`, and nowhere before.
pub open spec fn first_at(phrase: Seq<char>, line: Seq<char>, m: int) -> bool {
    occurs_at(phrase, line, m) && forall|i: int| 0 <= i < m ==> !#[trigger] occurs_at(phrase, line, i)
}

/// One or more decimal digits.
pub open spec fn is_digits(s: Seq<char>) -> bool {
    s.len() > 0 && forall|k: int| 0 <= k < s.len() ==> is_decimal_digit(#[trigger] s[k])
}

/// One or more characters of an address.
pub open spec fn is_address_like(t: Seq<char>) -> bool {
    t.len() > 0 && forall|k: int| 0 <= k < t.len() ==> is_address_char(#[trigger] t[k])
}

/// Nothing, or a user, on one line, that does not exist or was authenticating.
pub open spec fn is_who(who: Seq<char>) -> bool {
    ||| who.len() == 0
    ||| exists|user: Seq<char>| #[trigger]
        lacks(user, '\n') && (who == "invalid user "@ + user + " "@ || who
            == "authenticating user "@ + user + " "@)
}

/// `line` ends in the report that the connection of `who`, from `t`, was closed before
/// it was authenticated, and there is no such report before.
pub open spec fn ends_in_closed(
    line: Seq<char>,
    pre: Seq<char>,
    who: Seq<char>,
    t: Seq<char>,
    port: Seq<char>,
) -> bool {
    &&& line == pre + "Connection closed by "@ + who + t + " port "@ + port + " [preauth]"@
    &&& first_at("Connection closed by "@, line, pre.len() as int)
    &&& is_who(who)
    &&& is_address_like(t)
    &&& is_digits(port)
}

/// `line` ends in the report that `t` disconnected before it was authenticated, and there
/// is no such report before.
pub open spec fn ends_in_disconnect(
    line: Seq<char>,
    pre: Seq<char>,
    t: Seq<char>,
    port: Seq<char>,
    code: Seq<char>,
    msg: Seq<char>,
) -> bool {
    &&& line == pre + "Received disconnect from "@ + t + " port "@ + port + ":"@ + code + ":"@
        + msg + "[preauth]"@
    &&& first_at("Received disconnect from "@, line, pre.len() as int)
    &&& is_address_like(t)
    &&& is_digits(port)
    &&& is_digits(code)
    &&& lacks(msg, '\n')
}

/// `regex::Regex::new`, then `Regex::captures` and `Captures::name`: what the
/// named group captures at the leftmost match, or `None` if the pattern does not
/// compile. What is said of them:
/// - The three texts alone decide the outcome; which it is is left to
///   `regex_capture`, but for what follows.
/// - Each of the patterns compiles.
/// - A capture is a piece of the haystack that stands where its pattern has it: after
///   the phrase that the pattern begins with, made of the characters of the group's
///   class, and directly before ` port ` and a digit. (`\d` is any character of
///   Unicode's category `Decimal_Number`; the ranges in `is_decimal_digit` are those of
///   the crate's table.)
/// - The first two patterns have ` .* from ` before the group. A greedy `.*` runs, on
///   one line, to the last ` from ` after which the rest of the pattern matches. So
///   where the last ` from ` of the haystack is followed by address characters,
///   ` port ` and a digit, they capture these characters if their phrase stands before
///   that ` from `, and nothing if it does not.
/// - The last two patterns match where their phrase first stands, if what follows it is
///   what they describe. The group ends before ` port `, as that holds no character of its
///   class. It begins after the phrase or, in the third pattern, after the last space that
///   address characters, ` port `, digits and ` [preauth]` follow, if the phrase is
///   followed by one of the two ways to report a user; no address begins so.
#[verifier::external_body]
fn capture(pattern: &str, group: &str, haystack: &str) -> (r: Option<Option<String>>)
    requires
        pattern_texts().contains(pattern@),
        group@ == IP_GROUP@,
    ensures
        regex_capture(pattern@, group@, haystack@) == match r {
            None => None::<Option<Seq<char>>>,
            Some(None) => Some(None::<Seq<char>>),
            Some(Some(text)) => Some(Some(text@)),
        },
        r is Some,
        r matches Some(Some(text)) ==> exists|k: int, m: int, i: int, j: int|
            0 <= k < 4 && pattern@ == pattern_texts()[k] && #[trigger] names_at(
                phrases()[k],
                haystack@,
                m,
                i,
                j,
            ) && text@ == haystack@.subrange(i, j),
        forall|k: int, pre: Seq<char>, t: Seq<char>, rest: Seq<char>|
            0 <= k < 2 && pattern@ == #[trigger] pattern_texts()[k] && #[trigger] ends_in_source(
                haystack@,
                pre,
                t,
                rest,
            ) ==> match r {
                Some(Some(text)) => occurs(phrases()[k], pre) && text@ == t,
                _ => !occurs(phrases()[k], pre),
            },
        forall|pre: Seq<char>, who: Seq<char>, t: Seq<char>, port: Seq<char>|
            pattern@ == CLOSED_PREAUTH@ && #[trigger] ends_in_closed(haystack@, pre, who, t, port)
                ==> r is Some && r->0 is Some && r->0->0@ == t,
        forall|pre: Seq<char>, t: Seq<char>, port: Seq<char>, code: Seq<char>, msg: Seq<char>|
            pattern@ == DISCONNECT_PREAUTH@ && #[trigger] ends_in_disconnect(
                haystack@,
                pre,
                t,
                port,
                code,
                msg,
            ) ==> r is Some && r->0 is Some && r->0->0@ == t,
{
    let re = match regex::Regex::new(pattern) {
        Ok(re) => re,
        Err(_) => return None,
    };
    match re.captures(haystack) {
        None => Some(None),
        Some(caps) => match caps.name(group) {
            None => Some(None),
            Some(m) => Some(Some(m.as_str().to_string())),
        },
    }
}

/// The captured text, if there is one. A pattern that did not compile would capture
/// nothing.
pub open spec fn captured(pattern: Seq<char>, line: Seq<char>) -> Option<Seq<char>> {
    match regex_capture(pattern, IP_GROUP@, line) {
        Some(Some(text)) => Some(text),
        _ => None,
    }
}

/// What each pattern captures in `line`.
pub open spec fn captures_in(line: Seq<char>) -> Seq<Option<Seq<char>>> {
    Seq::new(4, |i: int| captured(pattern_texts()[i], line))
}

/// The first capture that is an address.
pub open spec fn first_address(captures: Seq<Option<Seq<char>>>) -> Option<Address>
    decreases captures.len(),
{
    if captures.len() == 0 {
        None
    } else {
        match captures[0] {
            Some(text) if parse_address(text) is Some => parse_address(text),
            _ => first_address(captures.drop_first()),
        }
    }
}

/// The address that `line` reports, if it reports a failure at all.
pub open spec fn offender_in(line: Seq<char>) -> Option<Address> {
    first_address(captures_in(line))
}

/// The views of optional strings.
pub open spec fn texts(v: Seq<Option<String>>) -> Seq<Option<Seq<char>>> {
    Seq::new(
        v.len(),
        |i: int|
            match v[i] {
                Some(s) => Some(s@),
                None => None,
            },
    )
}

/// The patterns of lines that report a failed or rejected attempt.
pub fn patterns() -> (r: Vec<&'static str>)
    ensures
        r@.len() == 4,
        forall|i: int| 0 <= i < 4 ==> (#[trigger] r@[i])@ == pattern_texts()[i],
{
    vec![FAILED_PASSWORD, INVALID_USER, CLOSED_PREAUTH, DISCONNECT_PREAUTH]
}

/// The first of the captured texts that is an address. One that is none, such as
/// `1.2.3` or `deadbeef`, is passed over.
pub fn first_offender(captures: &Vec<Option<String>>) -> (r: Option<IpAddr>)
    ensures
        match first_address(texts(captures@)) {
            Some(a) => r is Some && r->0@ == a,
            None => r is None,
        },
{
    let mut i: usize = 0;
    let ghost all = texts(captures@);
    assert(all.skip(0) =~= all);
    while i < captures.len()
        invariant
            i <= captures.len(),
            all == texts(captures@),
            first_address(all) == first_address(all.skip(i as int)),
        decreases captures.len() - i,
    {
        assert(all.skip(i as int)[0] == all[i as int]);
        assert(all.skip(i as int).drop_first() =~= all.skip(i as int + 1));
        match &captures[i] {
            Some(text) => {
                let ip: Option<IpAddr> = IpAddr::parse(text.as_str());
                if ip.is_some() {
                    return ip;
                }
            },
            None => {},
        }
        i += 1;
    }
    None
}

/// What sshd reports when the password of `user` is refused.
pub open spec fn failed_password_line(user: Seq<char>, a: Address, port: nat) -> Seq<char> {
    "Failed password for "@ + user + " from "@ + address_text(a) + " port "@ + dec(port)
        + " ssh2"@
}

/// What sshd reports when there is no `user`.
pub open spec fn invalid_user_line(user: Seq<char>, a: Address, port: nat) -> Seq<char> {
    "Invalid user "@ + user + " from "@ + address_text(a) + " port "@ + dec(port)
}

/// The address of whoever failed to authenticate, if `line` matches one of the
/// patterns; `None` for every other line. Where a user name is reported, it cannot
/// forge the address: the last ` from ` counts.
pub fn extract_offender(line: &str) -> (r: Option<IpAddr>)
    ensures
        match offender_in(line@) {
            Some(a) => r is Some && r->0@ == a,
            None => r is None,
        },
        forall|k: int|
            0 <= k < 4 ==> regex_capture(#[trigger] pattern_texts()[k], IP_GROUP@, line@) is Some,
        r is Some ==> exists|k: int, m: int, i: int, j: int|
            0 <= k < 4 && #[trigger] names_at(phrases()[k], line@, m, i, j) && parse_address(
                line@.subrange(i, j),
            ) == Some(r->0@),
        (forall|k: int| 0 <= k < 4 ==> !occurs(#[trigger] phrases()[k], line@)) ==> r is None,
        forall|pre: Seq<char>, a: Address, rest: Seq<char>|
            a.valid() && #[trigger] ends_in_source(line@, pre, address_text(a), rest) && (occurs(
                phrases()[0],
                pre,
            ) || occurs(phrases()[1], pre)) ==> r is Some && r->0@ == a,
        forall|user: Seq<char>, a: Address, port: nat|
            a.valid() && lacks(user, '\n') && line@ == #[trigger] failed_password_line(
                user,
                a,
                port,
            ) ==> r is Some && r->0@ == a,
        forall|user: Seq<char>, a: Address, port: nat|
            a.valid() && lacks(user, '\n') && line@ == #[trigger] invalid_user_line(user, a, port)
                ==> r is Some && r->0@ == a,
        !occurs("Failed password for "@, line@) ==> regex_capture(
            FAILED_PASSWORD@,
            IP_GROUP@,
            line@,
        ) == Some(None::<Seq<char>>),
        !occurs("Invalid user "@, line@) ==> regex_capture(INVALID_USER@, IP_GROUP@, line@) == Some(
            None::<Seq<char>>,
        ),
        !occurs("Connection closed by "@, line@) ==> regex_capture(
            CLOSED_PREAUTH@,
            IP_GROUP@,
            line@,
        ) == Some(None::<Seq<char>>),
        !occurs("Received disconnect from "@, line@) ==> regex_capture(
            DISCONNECT_PREAUTH@,
            IP_GROUP@,
            line@,
        ) == Some(None::<Seq<char>>),
        forall|pre: Seq<char>, user: Seq<char>, a: Address, port: nat, end: Seq<char>|
            a.valid() && lacks(pre, '\n') && lacks(user, '\n') && !occurs(" from "@, dec(port) + end)
                && line@ == #[trigger] (pre + "Failed password for "@ + user + " from "@
                + address_text(a) + " port "@ + dec(port) + end) ==> r is Some && r->0@ == a,
        forall|pre: Seq<char>, user: Seq<char>, a: Address, port: nat, end: Seq<char>|
            a.valid() && lacks(pre, '\n') && lacks(user, '\n') && !occurs(" from "@, dec(port) + end)
                && line@ == #[trigger] (pre + "Invalid user "@ + user + " from "@ + address_text(a)
                + " port "@ + dec(port) + end) ==> r is Some && r->0@ == a,
        no_address(FAILED_PASSWORD@, line@) && no_address(INVALID_USER@, line@) ==> {
            &&& forall|pre: Seq<char>, a: Address, port: nat|
                a.valid() && line@ == #[trigger] (pre + "Connection closed by "@ + address_text(a)
                    + " port "@ + dec(port) + " [preauth]"@) && (forall|i: int|
                    0 <= i < pre.len() ==> !#[trigger] occurs_at(
                        "Connection closed by "@,
                        line@,
                        i,
                    )) ==> r is Some && r->0@ == a
            &&& forall|pre: Seq<char>, user: Seq<char>, a: Address, port: nat|
                a.valid() && line@ == #[trigger] (pre + "Connection closed by invalid user "@ + user
                    + " "@ + address_text(a) + " port "@ + dec(port) + " [preauth]"@) && lacks(
                    user,
                    '\n',
                ) && (forall|i: int|
                    0 <= i < pre.len() ==> !#[trigger] occurs_at(
                        "Connection closed by "@,
                        line@,
                        i,
                    )) ==> r is Some && r->0@ == a
            &&& forall|pre: Seq<char>, user: Seq<char>, a: Address, port: nat|
                a.valid() && line@ == #[trigger] (pre + "Connection closed by authenticating user "@
                    + user + " "@ + address_text(a) + " port "@ + dec(port) + " [preauth]"@)
                    && lacks(user, '\n') && (forall|i: int|
                    0 <= i < pre.len() ==> !#[trigger] occurs_at(
                        "Connection closed by "@,
                        line@,
                        i,
                    )) ==> r is Some && r->0@ == a
        },
        no_address(FAILED_PASSWORD@, line@) && no_address(INVALID_USER@, line@) && no_address(
            CLOSED_PREAUTH@,
            line@,
        ) ==> forall|pre: Seq<char>, a: Address, port: nat, code: nat, msg: Seq<char>|
            a.valid() && line@ == #[trigger] (pre + "Received disconnect from "@ + address_text(a)
                + " port "@ + dec(port) + ":"@ + dec(code) + ":"@ + msg + "[preauth]"@) && lacks(
                msg,
                '\n',
            ) && (forall|i: int|
                0 <= i < pre.len() ==> !#[trigger] occurs_at("Received disconnect from "@, line@, i))
                ==> r is Some && r->0@ == a,
{
    let patterns: Vec<&'static str> = patterns();
    let mut captures: Vec<Option<String>> = Vec::new();
    let mut i: usize = 0;
    while i < patterns.len()
        invariant
            i <= patterns.len(),
            patterns@.len() == 4,
            forall|k: int| 0 <= k < 4 ==> (#[trigger] patterns@[k])@ == pattern_texts()[k],
            captures@.len() == i,
            forall|k: int|
                0 <= k < i ==> regex_capture(
                    #[trigger] pattern_texts()[k],
                    IP_GROUP@,
                    line@,
                ) is Some,
            forall|k: int|
                0 <= k < i ==> #[trigger] texts(captures@)[k] == captured(
                    pattern_texts()[k],
                    line@,
                ),
            forall|k: int|
                0 <= k < i && texts(captures@)[k] is Some ==> is_named(
                    #[trigger] texts(captures@)[k]->0,
                    line@,
                ),
            forall|k: int|
                0 <= k < i && texts(captures@)[k] is Some ==> occurs(
                    #[trigger] phrases()[k],
                    line@,
                ),
            forall|k: int|
                0 <= k < i && k < 2 ==> is_source(phrases()[k], line@, #[trigger] texts(captures@)[k]),
            i > 2 ==> is_closed(line@, texts(captures@)[2]),
            i > 3 ==> is_disconnect(line@, texts(captures@)[3]),
        decreases patterns.len() - i,
    {
        assert(pattern_texts()[i as int] == patterns@[i as int]@);
        proof {
            lemma_patterns_differ();
        }
        let found: Option<String> = match capture(patterns[i], IP_GROUP, line) {
            Some(found) => found,
            None => None,
        };
        let ghost before = captures@;
        captures.push(found);
        assert forall|k: int| 0 <= k < i + 1 implies #[trigger] texts(captures@)[k] == captured(
            pattern_texts()[k],
            line@,
        ) && (texts(captures@)[k] is Some ==> is_named(texts(captures@)[k]->0, line@) && occurs(
            phrases()[k],
            line@,
        )) && (k < 2 ==> is_source(phrases()[k], line@, texts(captures@)[k])) && (k == 2
            ==> is_closed(line@, texts(captures@)[2])) && (k == 3 ==> is_disconnect(
            line@,
            texts(captures@)[3],
        )) by {
            if k < i {
                assert(texts(captures@)[k] == texts(before)[k]);
                assert(phrases()[k] == phrases()[k]);
            } else if texts(captures@)[k] is Some {
                let (p, m, x, y) = choose|p: int, m: int, x: int, y: int|
                    0 <= p < 4 && pattern_texts()[i as int] == pattern_texts()[p]
                        && #[trigger] names_at(phrases()[p], line@, m, x, y)
                        && texts(captures@)[k]->0 == line@.subrange(x, y);
                assert(p == k);
                assert(occurs_at(phrases()[p], line@, m));
            }
        }
        i += 1;
    }
    let ghost all = texts(captures@);
    assert(all =~= captures_in(line@));
    proof {
        lemma_first_address(all);
        if first_address(all) is Some {
            let k = choose|k: int|
                0 <= k < all.len() && (#[trigger] all[k]) is Some && parse_address(all[k]->0)
                    == first_address(all);
            assert(is_named(all[k]->0, line@));
            let (p, m, i, j) = choose|p: int, m: int, i: int, j: int|
                0 <= p < 4 && #[trigger] names_at(phrases()[p], line@, m, i, j) && all[k]->0
                    == line@.subrange(i, j);
            assert(occurs_at(phrases()[p], line@, m));
            assert(occurs(phrases()[p], line@));
        }
        assert forall|pre: Seq<char>, a: Address, rest: Seq<char>|
            a.valid() && #[trigger] ends_in_source(line@, pre, address_text(a), rest) && (occurs(
                phrases()[0],
                pre,
            ) || occurs(phrases()[1], pre)) implies first_address(all) == Some(a) by {
            assert(is_source(phrases()[0], line@, all[0]));
            assert(is_source(phrases()[1], line@, all[1]));
            law_text_round_trip(a);
            assert(all.drop_first()[0] == all[1]);
            reveal_with_fuel(first_address, 3);
        }
        assert forall|user: Seq<char>, a: Address, port: nat|
            a.valid() && lacks(user, '\n') && line@ == #[trigger] failed_password_line(
                user,
                a,
                port,
            ) implies first_address(all) == Some(a) by {
            lemma_reported_line(line@, user, a, port);
        }
        assert forall|user: Seq<char>, a: Address, port: nat|
            a.valid() && lacks(user, '\n') && line@ == #[trigger] invalid_user_line(
                user,
                a,
                port,
            ) implies first_address(all) == Some(a) by {
            lemma_reported_line(line@, user, a, port);
        }
        assert(phrases()[0] == "Failed password for "@);
        assert(phrases()[1] == "Invalid user "@);
        assert(phrases()[2] == "Connection closed by "@);
        assert(phrases()[3] == "Received disconnect from "@);
        assert(pattern_texts()[0] == FAILED_PASSWORD@);
        assert(pattern_texts()[1] == INVALID_USER@);
        assert(pattern_texts()[2] == CLOSED_PREAUTH@);
        assert(pattern_texts()[3] == DISCONNECT_PREAUTH@);
        assert(all[0] == captured(FAILED_PASSWORD@, line@));
        assert(all[1] == captured(INVALID_USER@, line@));
        assert(all[2] == captured(CLOSED_PREAUTH@, line@));
        assert(all[3] == captured(DISCONNECT_PREAUTH@, line@));
        assert forall|pre: Seq<char>, user: Seq<char>, a: Address, port: nat, end: Seq<char>|
            a.valid() && lacks(pre, '\n') && lacks(user, '\n') && !occurs(" from "@, dec(port) + end)
                && line@ == #[trigger] (pre + "Failed password for "@ + user + " from "@
                + address_text(a) + " port "@ + dec(port) + end) implies first_address(all) == Some(
            a,
        ) by {
            lemma_user_line(line@, pre, phrases()[0], user, a, port, end);
        }
        assert forall|pre: Seq<char>, user: Seq<char>, a: Address, port: nat, end: Seq<char>|
            a.valid() && lacks(pre, '\n') && lacks(user, '\n') && !occurs(" from "@, dec(port) + end)
                && line@ == #[trigger] (pre + "Invalid user "@ + user + " from "@ + address_text(a)
                + " port "@ + dec(port) + end) implies first_address(all) == Some(a) by {
            lemma_user_line(line@, pre, phrases()[1], user, a, port, end);
        }
        if no_address(FAILED_PASSWORD@, line@) && no_address(INVALID_USER@, line@) {
            assert forall|pre: Seq<char>, a: Address, port: nat|
                a.valid() && line@ == #[trigger] (pre + "Connection closed by "@ + address_text(a)
                    + " port "@ + dec(port) + " [preauth]"@) && (forall|i: int|
                    0 <= i < pre.len() ==> !#[trigger] occurs_at(
                        "Connection closed by "@,
                        line@,
                        i,
                    )) implies first_address(all) == Some(a) by {
                let who = Seq::<char>::empty();
                assert(pre + "Connection closed by "@ + address_text(a) =~= pre
                    + "Connection closed by "@ + who + address_text(a));
                lemma_closed_line(all, line@, pre, who, a, port);
            }
            assert forall|pre: Seq<char>, user: Seq<char>, a: Address, port: nat|
                a.valid() && line@ == #[trigger] (pre + "Connection closed by invalid user "@ + user
                    + " "@ + address_text(a) + " port "@ + dec(port) + " [preauth]"@) && lacks(
                    user,
                    '\n',
                ) && (forall|i: int|
                    0 <= i < pre.len() ==> !#[trigger] occurs_at(
                        "Connection closed by "@,
                        line@,
                        i,
                    )) implies first_address(all) == Some(a) by {
                let who = "invalid user "@ + user + " "@;
                lemma_closed_phrases();
                assert(pre + "Connection closed by invalid user "@ + user + " "@ =~= pre
                    + "Connection closed by "@ + who);
                lemma_closed_line(all, line@, pre, who, a, port);
            }
            assert forall|pre: Seq<char>, user: Seq<char>, a: Address, port: nat|
                a.valid() && line@ == #[trigger] (pre + "Connection closed by authenticating user "@
                    + user + " "@ + address_text(a) + " port "@ + dec(port) + " [preauth]"@)
                    && lacks(user, '\n') && (forall|i: int|
                    0 <= i < pre.len() ==> !#[trigger] occurs_at(
                        "Connection closed by "@,
                        line@,
                        i,
                    )) implies first_address(all) == Some(a) by {
                let who = "authenticating user "@ + user + " "@;
                lemma_closed_phrases();
                assert(pre + "Connection closed by authenticating user "@ + user + " "@ =~= pre
                    + "Connection closed by "@ + who);
                lemma_closed_line(all, line@, pre, who, a, port);
            }
            if no_address(CLOSED_PREAUTH@, line@) {
                assert forall|pre: Seq<char>, a: Address, port: nat, code: nat, msg: Seq<char>|
                    a.valid() && line@ == #[trigger] (pre + "Received disconnect from "@
                        + address_text(a) + " port "@ + dec(port) + ":"@ + dec(code) + ":"@ + msg
                        + "[preauth]"@) && lacks(msg, '\n') && (forall|i: int|
                        0 <= i < pre.len() ==> !#[trigger] occurs_at(
                            "Received disconnect from "@,
                            line@,
                            i,
                        )) implies first_address(all) == Some(a) by {
                    lemma_disconnect_line(all, line@, pre, a, port, code, msg);
                }
            }
        }
    }
    first_offender(&captures)
}

/// The pattern captures nothing in `line` that is an address.
pub open spec fn no_address(pattern: Seq<char>, line: Seq<char>) -> bool {
    match regex_capture(pattern, IP_GROUP@, line) {
        Some(Some(text)) => parse_address(text) is None,
        _ => true,
    }
}

/// Where `line` ends in the report of a closed connection, its address is what was
/// found.
spec fn is_closed(line: Seq<char>, found: Option<Seq<char>>) -> bool {
    forall|pre: Seq<char>, who: Seq<char>, t: Seq<char>, port: Seq<char>| #[trigger]
        ends_in_closed(line, pre, who, t, port) ==> found == Some(t)
}

/// Where `line` ends in the report of a disconnect, its address is what was found.
spec fn is_disconnect(line: Seq<char>, found: Option<Seq<char>>) -> bool {
    forall|pre: Seq<char>, t: Seq<char>, port: Seq<char>, code: Seq<char>, msg: Seq<char>| #[trigger]
        ends_in_disconnect(line, pre, t, port, code, msg) ==> found == Some(t)
}

proof fn lemma_patterns_differ()
    ensures
        forall|i: int, j: int|
            0 <= i < 4 && 0 <= j < 4 && #[trigger] pattern_texts()[i] == #[trigger] pattern_texts()[j]
                ==> i == j,
{
    reveal_strlit("Failed password for .* from (?P<ip>[0-9a-fA-F:.]+) port \\d+");
    reveal_strlit("Invalid user .* from (?P<ip>[0-9a-fA-F:.]+) port \\d+");
    reveal_strlit(
        "Connection closed by (?:invalid user .* |authenticating user .* )?(?P<ip>[0-9a-fA-F:.]+) port \\d+ \\[preauth\\]",
    );
    reveal_strlit("Received disconnect from (?P<ip>[0-9a-fA-F:.]+) port \\d+:\\d+:.*\\[preauth\\]");
    assert(FAILED_PASSWORD@[0] == 'F');
    assert(INVALID_USER@[0] == 'I');
    assert(CLOSED_PREAUTH@[0] == 'C');
    assert(DISCONNECT_PREAUTH@[0] == 'R');
    assert(pattern_texts()[0][0] == 'F' && pattern_texts()[1][0] == 'I' && pattern_texts()[2][0]
        == 'C' && pattern_texts()[3][0] == 'R');
}

proof fn lemma_closed_phrases()
    ensures
        "Connection closed by invalid user "@ == "Connection closed by "@ + "invalid user "@,
        "Connection closed by authenticating user "@ == "Connection closed by "@
            + "authenticating user "@,
{
    reveal_strlit("Connection closed by ");
    reveal_strlit("invalid user ");
    reveal_strlit("authenticating user ");
    reveal_strlit("Connection closed by invalid user ");
    reveal_strlit("Connection closed by authenticating user ");
    assert("Connection closed by invalid user "@ =~= "Connection closed by "@ + "invalid user "@);
    assert("Connection closed by authenticating user "@ =~= "Connection closed by "@
        + "authenticating user "@);
}

/// A number is written with decimal digits.
proof fn lemma_dec_is_digits(n: nat)
    ensures
        is_digits(dec(n)),
{
    lemma_digits(n, 10);
    assert forall|k: int| 0 <= k < dec(n).len() implies is_decimal_digit(#[trigger] dec(n)[k]) by {
        assert(is_digit(dec(n)[k], 10));
    }
}

/// A line that reports a user ends in its source, whatever follows the port.
proof fn lemma_user_line(
    line: Seq<char>,
    pre: Seq<char>,
    phrase: Seq<char>,
    user: Seq<char>,
    a: Address,
    port: nat,
    end: Seq<char>,
)
    requires
        a.valid(),
        phrase == "Failed password for "@ || phrase == "Invalid user "@,
        lacks(pre, '\n'),
        lacks(user, '\n'),
        !occurs(" from "@, dec(port) + end),
        line == pre + phrase + user + " from "@ + address_text(a) + " port "@ + dec(port) + end,
    ensures
        ends_in_source(line, pre + phrase + user, address_text(a), dec(port) + end),
        occurs(phrase, pre + phrase + user),
{
    reveal_strlit("Failed password for ");
    reveal_strlit("Invalid user ");
    law_text_characters(a);
    lemma_dec_is_digits(port);
    let front = pre + phrase + user;
    let rest = dec(port) + end;
    assert(front.subrange(pre.len() as int, pre.len() as int + phrase.len()) =~= phrase);
    assert(occurs_at(phrase, front, pre.len() as int));
    assert forall|k: int| 0 <= k < front.len() implies front[k] != '\n' by {
        if k < pre.len() {
            assert(front[k] == pre[k]);
        } else if k >= pre.len() + phrase.len() {
            assert(front[k] == user[k - pre.len() - phrase.len()]);
        } else {
            assert(front[k] == phrase[k - pre.len()]);
        }
    }
    assert(rest[0] == dec(port)[0]);
    assert(line =~= front + " from "@ + address_text(a) + " port "@ + rest);
}

/// A line that ends in the report of a closed connection names its address.
proof fn lemma_closed_line(
    all: Seq<Option<Seq<char>>>,
    line: Seq<char>,
    pre: Seq<char>,
    who: Seq<char>,
    a: Address,
    port: nat,
)
    requires
        all.len() == 4,
        is_closed(line, all[2]),
        all[0] is Some ==> parse_address(all[0]->0) is None,
        all[1] is Some ==> parse_address(all[1]->0) is None,
        a.valid(),
        is_who(who),
        line == pre + "Connection closed by "@ + who + address_text(a) + " port "@ + dec(port)
            + " [preauth]"@,
        forall|i: int|
            0 <= i < pre.len() ==> !#[trigger] occurs_at("Connection closed by "@, line, i),
    ensures
        first_address(all) == Some(a),
{
    let phrase = "Connection closed by "@;
    law_text_characters(a);
    law_text_round_trip(a);
    lemma_dec_is_digits(port);
    assert(line.subrange(pre.len() as int, pre.len() as int + phrase.len()) =~= phrase);
    assert(ends_in_closed(line, pre, who, address_text(a), dec(port)));
    assert(all.drop_first()[0] == all[1]);
    assert(all.drop_first().drop_first()[0] == all[2]);
    reveal_with_fuel(first_address, 4);
}

/// A line that ends in the report of a disconnect names its address.
proof fn lemma_disconnect_line(
    all: Seq<Option<Seq<char>>>,
    line: Seq<char>,
    pre: Seq<char>,
    a: Address,
    port: nat,
    code: nat,
    msg: Seq<char>,
)
    requires
        all.len() == 4,
        is_disconnect(line, all[3]),
        all[0] is Some ==> parse_address(all[0]->0) is None,
        all[1] is Some ==> parse_address(all[1]->0) is None,
        all[2] is Some ==> parse_address(all[2]->0) is None,
        a.valid(),
        lacks(msg, '\n'),
        line == pre + "Received disconnect from "@ + address_text(a) + " port "@ + dec(port) + ":"@
            + dec(code) + ":"@ + msg + "[preauth]"@,
        forall|i: int|
            0 <= i < pre.len() ==> !#[trigger] occurs_at("Received disconnect from "@, line, i),
    ensures
        first_address(all) == Some(a),
{
    let phrase = "Received disconnect from "@;
    law_text_characters(a);
    law_text_round_trip(a);
    lemma_dec_is_digits(port);
    lemma_dec_is_digits(code);
    assert(line.subrange(pre.len() as int, pre.len() as int + phrase.len()) =~= phrase);
    assert(ends_in_disconnect(line, pre, address_text(a), dec(port), dec(code), msg));
    assert(all.drop_first()[0] == all[1]);
    assert(all.drop_first().drop_first()[0] == all[2]);
    assert(all.drop_first().drop_first().drop_first()[0] == all[3]);
    reveal_with_fuel(first_address, 5);
}

/// `text` is a piece of `line` that stands where one of the patterns has the
/// address.
spec fn is_named(text: Seq<char>, line: Seq<char>) -> bool {
    exists|k: int, m: int, i: int, j: int|
        0 <= k < 4 && #[trigger] names_at(phrases()[k], line, m, i, j) && text == line.subrange(i, j)
}

/// Where `line` ends in a source, that source is what was found, if the phrase
/// stands before it.
spec fn is_source(phrase: Seq<char>, line: Seq<char>, found: Option<Seq<char>>) -> bool {
    forall|pre: Seq<char>, t: Seq<char>, rest: Seq<char>| #[trigger]
        ends_in_source(line, pre, t, rest) ==> found == if occurs(phrase, pre) {
            Some(t)
        } else {
            None
        }
}

/// The lines that sshd reports a user with end in their source.
proof fn lemma_reported_line(line: Seq<char>, user: Seq<char>, a: Address, port: nat)
    requires
        a.valid(),
        lacks(user, '\n'),
        line == failed_password_line(user, a, port) || line == invalid_user_line(user, a, port),
    ensures
        exists|pre: Seq<char>, rest: Seq<char>| #[trigger]
            ends_in_source(line, pre, address_text(a), rest) && (occurs(phrases()[0], pre)
                || occurs(phrases()[1], pre)),
{
    reveal_strlit("Failed password for ");
    reveal_strlit("Invalid user ");
    reveal_strlit(" from ");
    reveal_strlit(" ssh2");
    law_text_characters(a);
    lemma_digits(port, 10);
    let phrase = if line == failed_password_line(user, a, port) {
        phrases()[0]
    } else {
        phrases()[1]
    };
    let end = if line == failed_password_line(user, a, port) {
        " ssh2"@
    } else {
        Seq::<char>::empty()
    };
    let pre = phrase + user;
    let rest = dec(port) + end;
    assert(line =~= pre + " from "@ + address_text(a) + " port "@ + rest);
    assert(pre.subrange(0, phrase.len() as int) =~= phrase);
    assert(occurs_at(phrase, pre, 0));
    assert forall|k: int| 0 <= k < pre.len() implies pre[k] != '\n' by {
        if k >= phrase.len() {
            assert(pre[k] == user[k - phrase.len()]);
        }
    }
    assert(is_digit(dec(port)[0], 10));
    assert(!occurs(" from "@, rest)) by {
        if occurs(" from "@, rest) {
            let k = choose|k: int| #[trigger] occurs_at(" from "@, rest, k);
            let piece = rest.subrange(k, k + 6);
            assert(piece[0] == ' ' && piece[1] == 'f');
            assert(rest[k] == ' ' && rest[k + 1] == 'f');
            if k < dec(port).len() {
                assert(is_digit(dec(port)[k], 10));
            }
        }
    }
    assert(ends_in_source(line, pre, address_text(a), rest));
}

proof fn lemma_first_address(captures: Seq<Option<Seq<char>>>)
    ensures
        first_address(captures) is Some ==> exists|k: int|
            0 <= k < captures.len() && (#[trigger] captures[k]) is Some && parse_address(
                captures[k]->0,
            ) == first_address(captures),
    decreases captures.len(),
{
    if captures.len() > 0 {
        lemma_first_address(captures.drop_first());
        if first_address(captures) is Some {
            if captures[0] is Some && parse_address(captures[0]->0) is Some {
                assert(parse_address(captures[0]->0) == first_address(captures));
            } else {
                let rest = captures.drop_first();
                let k = choose|k: int|
                    0 <= k < rest.len() && (#[trigger] rest[k]) is Some && parse_address(rest[k]->0)
                        == first_address(rest);
                assert(captures[k + 1] == rest[k]);
            }
        }
    }
}

// ---------------------------------------------------------------------------
// Addresses that are never banned
// ---------------------------------------------------------------------------

/// Loopback (`127.0.0.0/8`, `::1`), the private ranges of RFC 1918
/// (`10.0.0.0/8`, `172.16.0.0/12`, `192.168.0.0/16`), link-local (`169.254.0.0/16`,
/// `fe80::/10`) and the unique local range of RFC 4193 (`fc00::/7`).
pub open spec fn never_bannable(a: Address) -> bool {
    match a {
        Address::V4(o) => {
            ||| o[0] == 127
            ||| o[0] == 10
            ||| o[0] == 172 && 16 <= o[1] <= 31
            ||| o[0] == 192 && o[1] == 168
            ||| o[0] == 169 && o[1] == 254
        },
        Address::V6(g) => {
            ||| g == seq![0u16, 0, 0, 0, 0, 0, 0, 1]
            ||| 0xfc00 <= g[0] <= 0xfdff
            ||| 0xfe80 <= g[0] <= 0xfebf
        },
    }
}

/// Whether `ip` is loopback, private or link-local. Such an address is never banned, whatever
/// the configuration says: it is one of the networks the host itself is on.
pub fn is_never_bannable(ip: &IpAddr) -> (r: bool)
    ensures
        r == never_bannable(ip@),
{
    match ip {
        IpAddr::V4(o) => {
            o[0] == 127 || o[0] == 10 || (o[0] == 172 && 16 <= o[1] && o[1] <= 31) || (o[0] == 192
                && o[1] == 168) || (o[0] == 169 && o[1] == 254)
        },
        IpAddr::V6(g) => {
            let loopback: bool = g[0] == 0 && g[1] == 0 && g[2] == 0 && g[3] == 0 && g[4] == 0
                && g[5] == 0 && g[6] == 0 && g[7] == 1;
            proof {
                if loopback {
                    assert(g@ =~= seq![0u16, 0, 0, 0, 0, 0, 0, 1]);
                }
            }
            loopback || (0xfc00 <= g[0] && g[0] <= 0xfdff) || (0xfe80 <= g[0] && g[0] <= 0xfebf)
        },
    }
}

// ---------------------------------------------------------------------------
// Failures within a sliding window
// ---------------------------------------------------------------------------

/// The failure at `t` lies further back from `now` than `window` reaches.
pub open spec fn expired(t: Instant, now: Instant, window: Duration) -> bool {
    now.nanos() - t.nanos() > window.total()
}

/// The failures that are left once those at the front that have expired are
/// dropped.
pub open spec fn prune(times: Seq<Instant>, now: Instant, window: Duration) -> Seq<Instant>
    decreases times.len(),
{
    if times.len() > 0 && expired(times[0], now, window) {
        prune(times.drop_first(), now, window)
    } else {
        times
    }
}

/// The failures of one address once another one, at `now`, is recorded.
pub open spec fn recorded(times: Seq<Instant>, now: Instant, window: Duration) -> Seq<Instant> {
    prune(times.push(now), now, window)
}

spec fn v4_number(o: Seq<u8>) -> int {
    ((o[0] * 256 + o[1]) * 256 + o[2]) * 256 + o[3]
}

spec fn v6_high(g: Seq<u16>) -> int {
    ((g[0] * 65536 + g[1]) * 65536 + g[2]) * 65536 + g[3]
}

spec fn v6_low(g: Seq<u16>) -> int {
    ((g[4] * 65536 + g[5]) * 65536 + g[6]) * 65536 + g[7]
}

spec fn v6_number(g: Seq<u16>) -> int {
    v6_high(g) * 0x1_0000_0000_0000_0000 + v6_low(g)
}

proof fn lemma_v4_number(a: Seq<u8>, b: Seq<u8>)
    requires
        a.len() == 4,
        b.len() == 4,
        v4_number(a) == v4_number(b),
    ensures
        a == b,
{
    assert(a =~= b);
}

proof fn lemma_four_groups(a: Seq<u16>, b: Seq<u16>, i: int)
    requires
        0 <= i,
        i + 4 <= a.len(),
        i + 4 <= b.len(),
        ((a[i] * 65536 + a[i + 1]) * 65536 + a[i + 2]) * 65536 + a[i + 3] == ((b[i] * 65536 + b[i
            + 1]) * 65536 + b[i + 2]) * 65536 + b[i + 3],
    ensures
        a[i] == b[i] && a[i + 1] == b[i + 1] && a[i + 2] == b[i + 2] && a[i + 3] == b[i + 3],
{
}

proof fn lemma_v6_number(a: Seq<u16>, b: Seq<u16>)
    requires
        a.len() == 8,
        b.len() == 8,
        v6_number(a) == v6_number(b),
    ensures
        a == b,
{
    assert(0 <= v6_low(a) < 0x1_0000_0000_0000_0000 && 0 <= v6_low(b) < 0x1_0000_0000_0000_0000);
    assert(v6_high(a) == v6_high(b) && v6_low(a) == v6_low(b));
    lemma_four_groups(a, b, 0);
    lemma_four_groups(a, b, 4);
    assert(a =~= b);
}

fn v4_key(o: &[u8; 4]) -> (r: u32)
    ensures
        r == v4_number(o@),
{
    ((o[0] as u32 * 256 + o[1] as u32) * 256 + o[2] as u32) * 256 + o[3] as u32
}

fn v6_key(g: &[u16; 8]) -> (r: u128)
    ensures
        r == v6_number(g@),
{
    let high: u128 = ((g[0] as u128 * 65536 + g[1] as u128) * 65536 + g[2] as u128) * 65536
        + g[3] as u128;
    let low: u128 = ((g[4] as u128 * 65536 + g[5] as u128) * 65536 + g[6] as u128) * 65536
        + g[7] as u128;
    high * 0x1_0000_0000_0000_0000 + low
}

/// Counts each address's failures within a sliding window. `record` returns
/// `true` on the failure that reaches the threshold, and not again while the
/// count stays at or over it.
pub struct FailureTracker {
    window: Duration,
    threshold: usize,
    v4: HashMap<u32, VecDeque<Instant>>,
    v6: HashMap<u128, VecDeque<Instant>>,
}

impl FailureTracker {
    pub closed spec fn window(self) -> Duration {
        self.window
    }

    pub closed spec fn threshold(self) -> usize {
        self.threshold
    }

    /// The failures that are remembered of an address, oldest first.
    pub closed spec fn history(self, a: Address) -> Seq<Instant> {
        match a {
            Address::V4(o) => if self.v4@.contains_key(v4_number(o) as u32) {
                self.v4@[v4_number(o) as u32]@
            } else {
                Seq::<Instant>::empty()
            },
            Address::V6(g) => if self.v6@.contains_key(v6_number(g) as u128) {
                self.v6@[v6_number(g) as u128]@
            } else {
                Seq::<Instant>::empty()
            },
        }
    }

    /// Both trackers count by the same rule and remember the same failures of
    /// every address other than `a`.
    pub open spec fn agrees_but_for(self, other: FailureTracker, a: Address) -> bool {
        &&& self.window() == other.window()
        &&& self.threshold() == other.threshold()
        &&& forall|b: Address|
            b.valid() && b != a ==> #[trigger] self.history(b) == other.history(b)
    }

    /// A tracker that remembers nothing yet.
    pub fn new(window: Duration, threshold: usize) -> (r: FailureTracker)
        ensures
            r.window() == window,
            r.threshold() == threshold,
            forall|a: Address| #[trigger] r.history(a) == Seq::<Instant>::empty(),
    {
        FailureTracker { window, threshold, v4: HashMap::new(), v6: HashMap::new() }
    }

    /// How many failures within the window are too many.
    pub(crate) fn threshold_value(&self) -> (r: usize)
        ensures
            r == self.threshold(),
    {
        self.threshold
    }

    fn take(&mut self, ip: &IpAddr) -> (r: VecDeque<Instant>)
        ensures
            r@ == old(self).history(ip@),
            final(self).history(ip@) == Seq::<Instant>::empty(),
            final(self).agrees_but_for(*old(self), ip@),
    {
        let found: Option<VecDeque<Instant>> = match ip {
            IpAddr::V4(o) => {
                let key: u32 = v4_key(o);
                self.v4.remove(&key)
            },
            IpAddr::V6(g) => {
                let key: u128 = v6_key(g);
                self.v6.remove(&key)
            },
        };
        proof {
            lemma_other_keys(ip@);
        }
        match found {
            Some(times) => times,
            None => VecDeque::new(),
        }
    }

    fn put(&mut self, ip: &IpAddr, times: VecDeque<Instant>)
        ensures
            final(self).history(ip@) == times@,
            final(self).agrees_but_for(*old(self), ip@),
    {
        match ip {
            IpAddr::V4(o) => {
                let key: u32 = v4_key(o);
                self.v4.insert(key, times);
            },
            IpAddr::V6(g) => {
                let key: u128 = v6_key(g);
                self.v6.insert(key, times);
            },
        }
        proof {
            lemma_other_keys(ip@);
        }
    }

    /// Records a failure of `ip` at `now`, and forgets those that have left the
    /// window. Returns `true` if this one reaches the threshold.
    pub fn record(&mut self, ip: IpAddr, now: Instant) -> (r: bool)
        ensures
            final(self).history(ip@) == recorded(old(self).history(ip@), now, old(self).window()),
            final(self).agrees_but_for(*old(self), ip@),
            r == (final(self).history(ip@).len() == old(self).threshold()),
            exists|k: int|
                0 <= k <= old(self).history(ip@).len() && final(self).history(ip@) == #[trigger] old(
                    self,
                ).history(ip@).push(now).skip(k) && (forall|i: int|
                    0 <= i < k ==> now.nanos() - (#[trigger] old(self).history(ip@)[i]).nanos()
                        > old(self).window().total()) && (k < old(self).history(ip@).len()
                    ==> now.nanos() - old(self).history(ip@)[k].nanos() <= old(
                    self,
                ).window().total()),
            final(self).window() == old(self).window(),
            final(self).threshold() == old(self).threshold(),
            forall|b: Address|
                b.valid() && b != ip@ ==> #[trigger] final(self).history(b) == old(self).history(b),
    {
        proof {
            law_recorded_drops_what_left_the_window(self.history(ip@), now, self.window);
        }
        let mut times: VecDeque<Instant> = self.take(&ip);
        times.push_back(now);
        let ghost all = times@;
        while times.len() > 0
            invariant
                prune(all, now, self.window) == prune(times@, now, self.window),
            ensures
                times@ == prune(all, now, self.window),
            decreases times@.len(),
        {
            let front: Instant = times[0];
            if now.duration_since(&front).exceeds(&self.window) {
                times.pop_front();
            } else {
                break ;
            }
        }
        let reached: bool = times.len() == self.threshold;
        self.put(&ip, times);
        reached
    }

    /// Forgets the failures of `ip`: once it is banned, its count starts anew.
    pub fn forget(&mut self, ip: &IpAddr)
        ensures
            final(self).history(ip@) == Seq::<Instant>::empty(),
            final(self).agrees_but_for(*old(self), ip@),
            final(self).window() == old(self).window(),
            final(self).threshold() == old(self).threshold(),
            forall|b: Address|
                b.valid() && b != ip@ ==> #[trigger] final(self).history(b) == old(self).history(b),
    {
        let _ = self.take(ip);
    }
}

/// Other addresses have other keys.
proof fn lemma_other_keys(a: Address)
    requires
        a.valid(),
    ensures
        forall|o: Seq<u8>|
            #![trigger v4_number(o)]
            Address::V4(o).valid() && Address::V4(o) != a && a is V4 ==> v4_number(o) as u32
                != v4_number(a->V4_0) as u32,
        forall|g: Seq<u16>|
            #![trigger v6_number(g)]
            Address::V6(g).valid() && Address::V6(g) != a && a is V6 ==> v6_number(g) as u128
                != v6_number(a->V6_0) as u128,
{
    assert forall|o: Seq<u8>|
        #![trigger v4_number(o)]
        Address::V4(o).valid() && Address::V4(o) != a && a is V4 implies v4_number(o) as u32
        != v4_number(a->V4_0) as u32 by {
        if v4_number(o) == v4_number(a->V4_0) {
            lemma_v4_number(o, a->V4_0);
        }
    }
    assert forall|g: Seq<u16>|
        #![trigger v6_number(g)]
        Address::V6(g).valid() && Address::V6(g) != a && a is V6 implies v6_number(g) as u128
        != v6_number(a->V6_0) as u128 by {
        if v6_number(g) == v6_number(a->V6_0) {
            lemma_v6_number(g, a->V6_0);
        }
    }
}

} // verus!
