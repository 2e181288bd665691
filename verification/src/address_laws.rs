//! Which texts denote which addresses, and which text an address is written as.

use vstd::prelude::*;

use crate::ip::{
    address_text, gap_at, group_values, groups_of, is_address_char, is_group,
    is_mapped, is_octet, is_v4_text, lemma_longest_run, lemma_zero_run, longest_run, mapped_octets, numerals,
    octets_as_groups, parse_address, side, v4_octets, zero_run, zeros, Address,
};
use crate::ip_laws::{
    law_text_round_trip, lemma_gap, lemma_no_gap, lemma_v4_lacks_colon, lemma_v4_no_group,
};
use crate::text::{
    dec, digit_value, digits, is_char, is_digit, is_numeral, join, lemma_split_lacking,
    lemma_split_nonempty, split, value,
};
use crate::text_laws::law_digits_are_positional;

verus! {

// ---------------------------------------------------------------------------
// Writing
// ---------------------------------------------------------------------------

/// An IPv4 address is written as its four octets in decimal, with dots between them.
pub proof fn law_v4_is_written_dotted(o: Seq<u8>)
    requires
        o.len() == 4,
    ensures
        address_text(Address::V4(o)) == dec(o[0] as nat) + "."@ + dec(o[1] as nat) + "."@ + dec(
            o[2] as nat,
        ) + "."@ + dec(o[3] as nat),
{
    reveal_strlit(".");
    let p = seq![dec(o[0] as nat), dec(o[1] as nat), dec(o[2] as nat), dec(o[3] as nat)];
    reveal_with_fuel(join, 5);
    assert(p.drop_last() =~= seq![dec(o[0] as nat), dec(o[1] as nat), dec(o[2] as nat)]);
    assert(p.drop_last().drop_last() =~= seq![dec(o[0] as nat), dec(o[1] as nat)]);
    assert(p.drop_last().drop_last().drop_last() =~= seq![dec(o[0] as nat)]);
    assert(join(p, '.') =~= dec(o[0] as nat) + "."@ + dec(o[1] as nat) + "."@ + dec(o[2] as nat)
        + "."@ + dec(o[3] as nat));
}

/// An IPv4-mapped address is written as `::ffff:` and its IPv4 address.
pub proof fn law_mapped_is_written_with_its_v4(g: Seq<u16>, o: Seq<u8>)
    requires
        g.len() == 8,
        o.len() == 4,
        forall|i: int| 0 <= i < 5 ==> g[i] == 0,
        g[5] == 0xffff,
        g[6] == o[0] * 256 + o[1],
        g[7] == o[2] * 256 + o[3],
    ensures
        address_text(Address::V6(g)) == "::ffff:"@ + address_text(Address::V4(o)),
{
    assert(is_mapped(g));
    assert(mapped_octets(g) =~= o);
}

proof fn lemma_zero_run_reaches(g: Seq<u16>, i: int, n: int)
    requires
        0 <= i,
        0 <= n,
        i + n <= g.len(),
        forall|k: int| i <= k < i + n ==> g[k] == 0,
    ensures
        zero_run(g, i) >= n,
    decreases n,
{
    if n > 0 {
        lemma_zero_run_reaches(g, i + 1, n - 1);
    }
}

/// Any other IPv6 address with two or more zero groups in a row is written with `::` in
/// place of the longest such row, the first of several. The other groups are written in
/// hexadecimal, without leading zeros, and with colons between them.
pub proof fn law_longest_zeros_are_left_out(g: Seq<u16>, start: int, n: int)
    requires
        g.len() == 8,
        !((forall|i: int| 0 <= i < 5 ==> g[i] == 0) && g[5] == 0xffff),
        0 <= start,
        n >= 2,
        start + n <= 8,
        forall|k: int| start <= k < start + n ==> g[k] == 0,
        forall|s: int, m: int|
            0 <= s && 0 <= m && s + m <= 8 && #[trigger] all_zero(g, s, m) ==> m < n || (m == n && s
                >= start),
    ensures
        address_text(Address::V6(g)) == join(
            Seq::new(start as nat, |i: int| digits(g[i] as nat, 16)),
            ':',
        ) + "::"@ + join(
            Seq::new((8 - start - n) as nat, |i: int| digits(g[start + n + i] as nat, 16)),
            ':',
        ),
{
    let first = longest_run(g, 0);
    let len = zero_run(g, first);
    lemma_longest_run(g, 0);
    lemma_zero_run(g, first);
    assert(all_zero(g, first, len as int));
    lemma_zero_run(g, start);
    lemma_zero_run_reaches(g, start, n);
    assert(all_zero(g, start, zero_run(g, start) as int));
    assert(zero_run(g, start) == n);
    assert(len == n && first == start);
    assert(numerals(g.take(start)) =~= Seq::new(start as nat, |i: int| digits(g[i] as nat, 16)));
    assert(numerals(g.skip(start + n)) =~= Seq::new(
        (8 - start - n) as nat,
        |i: int| digits(g[start + n + i] as nat, 16),
    ));
}

/// The `m` groups from `s` on are zero.
pub open spec fn all_zero(g: Seq<u16>, s: int, m: int) -> bool {
    forall|k: int| s <= k < s + m ==> g[k] == 0
}

/// A row of zero groups is one in which every group is zero.
pub proof fn law_all_zero(g: Seq<u16>, s: int, m: int)
    requires
        0 <= s,
        0 <= m,
        s + m <= g.len(),
    ensures
        all_zero(g, s, m) <==> g.subrange(s, s + m) == Seq::new(m as nat, |i: int| 0u16),
{
    let row = g.subrange(s, s + m);
    let none = Seq::new(m as nat, |i: int| 0u16);
    if all_zero(g, s, m) {
        assert(row =~= none);
    }
    if row == none {
        assert forall|k: int| s <= k < s + m implies g[k] == 0 by {
            assert(row[k - s] == none[k - s]);
        }
    }
}

/// An IPv6 address without two zero groups in a row is written with every group.
pub proof fn law_groups_are_written_out(g: Seq<u16>)
    requires
        g.len() == 8,
        forall|i: int| 0 <= i < 7 ==> !((#[trigger] g[i]) == 0 && g[i + 1] == 0),
    ensures
        address_text(Address::V6(g)) == join(Seq::new(8, |i: int| digits(g[i] as nat, 16)), ':'),
{
    assert(!(g[0] == 0 && g[1] == 0));
    assert(!is_mapped(g));
    let first = longest_run(g, 0);
    lemma_longest_run(g, 0);
    lemma_zero_run(g, first);
    assert(zero_run(g, first) <= 1) by {
        if zero_run(g, first) > 1 {
            assert(g[first] == 0 && g[first + 1] == 0);
        }
    }
    assert(numerals(g) =~= Seq::new(8, |i: int| digits(g[i] as nat, 16)));
}

// ---------------------------------------------------------------------------
// Reading
// ---------------------------------------------------------------------------

/// Joining undoes splitting.
proof fn lemma_join_split(s: Seq<char>, sep: char)
    ensures
        join(split(s, is_char(sep)), sep) == s,
    decreases s.len(),
{
    let p = is_char(sep);
    let parts = split(s, p);
    if s.len() == 0 {
        assert(parts =~= seq![Seq::<char>::empty()]);
        assert(s =~= Seq::<char>::empty());
    } else {
        let front = split(s.drop_last(), p);
        lemma_join_split(s.drop_last(), sep);
        lemma_split_nonempty(s.drop_last(), p);
        assert(s.drop_last().push(s.last()) =~= s);
        if p(s.last()) {
            assert(parts.drop_last() =~= front);
            assert(join(parts, sep) =~= s);
        } else {
            assert(parts.drop_last() =~= front.drop_last());
            assert(join(parts, sep) =~= join(front, sep).push(s.last())) by {
                if front.len() == 1 {
                    assert(parts[0] == front[0].push(s.last()));
                }
            }
        }
    }
}

/// A decimal numeral without leading zeros is that of what it denotes.
proof fn lemma_canonical(s: Seq<char>)
    requires
        is_numeral(s, 10),
        s.len() > 1 ==> s[0] != '0',
    ensures
        value(s, 10) >= 0,
        s[0] != '0' ==> value(s, 10) > 0,
        s == dec(value(s, 10) as nat),
    decreases s.len(),
{
    let c = s.last();
    assert(is_digit(c, 10));
    assert(is_digit(s[0], 10));
    let d = digit_value(c)->0;
    if s.len() == 1 {
        assert(s.drop_last() =~= Seq::<char>::empty());
        assert(value(s.drop_last(), 10) == 0);
        assert(value(s, 10) == d);
        assert(s =~= dec(d as nat));
    } else {
        let front = s.drop_last();
        assert forall|i: int| 0 <= i < front.len() implies is_digit(#[trigger] front[i], 10) by {
            assert(front[i] == s[i]);
        }
        lemma_canonical(front);
        let v = value(front, 10) as nat;
        law_digits_are_positional(v, d as nat, 10);
        assert(value(s, 10) == v * 10 + d);
        assert(s =~= front.push(c));
        assert(digits(d as nat, 10) =~= seq![c]);
        assert(s =~= dec(v) + digits(d as nat, 10));
    }
}

/// An IPv4 address is read from its own text and from no other: four decimal numbers up to
/// 255, without leading zeros, with dots between them.
pub proof fn law_v4_is_read_from_its_text_alone(s: Seq<char>, o: Seq<u8>)
    requires
        o.len() == 4,
    ensures
        parse_address(s) == Some(Address::V4(o)) <==> s == address_text(Address::V4(o)),
{
    law_text_round_trip(Address::V4(o));
    if parse_address(s) == Some(Address::V4(o)) {
        assert(is_v4_text(s));
        let parts = split(s, is_char('.'));
        assert forall|i: int| 0 <= i < 4 implies parts[i] == dec(o[i] as nat) by {
            assert(is_octet(parts[i]));
            lemma_canonical(parts[i]);
            assert(v4_octets(s)[i] == value(parts[i], 10) as u8);
        }
        lemma_join_split(s, '.');
        assert(parts =~= seq![
            dec(o[0] as nat),
            dec(o[1] as nat),
            dec(o[2] as nat),
            dec(o[3] as nat),
        ]);
    }
}

/// One to four hexadecimal digits, in either case.
pub open spec fn is_hex_group(p: Seq<char>) -> bool {
    1 <= p.len() <= 4 && forall|i: int|
        0 <= i < p.len() ==> '0' <= #[trigger] p[i] <= '9' || 'a' <= p[i] <= 'f' || 'A' <= p[i] <= 'F'
}

/// A group has at least one hexadecimal digit, at most four, and no other character.
pub proof fn law_hex_group(p: Seq<char>)
    ensures
        is_hex_group(p) <==> 0 < p.len() < 5 && !(exists|i: int|
            0 <= i < p.len() && digit_value(#[trigger] p[i]) is None),
{
}

proof fn lemma_hex_group(p: Seq<char>)
    ensures
        is_hex_group(p) <==> is_group(p),
{
    if is_group(p) {
        assert forall|i: int| 0 <= i < p.len() implies '0' <= #[trigger] p[i] <= '9' || 'a' <= p[i]
            <= 'f' || 'A' <= p[i] <= 'F' by {
            assert(is_digit(p[i], 16));
        }
    }
    if is_hex_group(p) {
        assert forall|i: int| 0 <= i < p.len() implies is_digit(#[trigger] p[i], 16) by {}
    }
}

/// Of a text without `::`, what stands between colons are the groups. It denotes an IPv6
/// address exactly if there are eight of them, or six and an IPv4 address.
pub proof fn law_v6_without_gap(s: Seq<char>)
    requires
        forall|i: int| 0 <= i < s.len() - 1 ==> !((#[trigger] s[i]) == ':' && s[i + 1] == ':'),
    ensures
        ({
            let parts = split(s, is_char(':'));
            let eight = parts.len() == 8 && forall|i: int|
                0 <= i < 8 ==> is_hex_group(#[trigger] parts[i]);
            let six = parts.len() == 7 && (forall|i: int|
                0 <= i < 6 ==> is_hex_group(#[trigger] parts[i])) && (parse_address(
                parts[6],
            ) matches Some(Address::V4(_)));
            &&& (parse_address(s) matches Some(Address::V6(_))) <==> eight || six
            &&& eight ==> parse_address(s) == Some(
                Address::V6(Seq::new(8, |i: int| value(parts[i], 16) as u16)),
            )
            &&& six ==> {
                let g = parse_address(s)->0->V6_0;
                let o = parse_address(parts[6])->0->V4_0;
                &&& g.len() == 8
                &&& forall|i: int| 0 <= i < 6 ==> g[i] == value(#[trigger] parts[i], 16) as u16
                &&& g[6] == o[0] * 256 + o[1]
                &&& g[7] == o[2] * 256 + o[3]
            }
        }),
{
    let parts = split(s, is_char(':'));
    let front = parts.drop_last();
    lemma_split_nonempty(s, is_char(':'));
    assert forall|i: int| 0 <= i implies !#[trigger] gap_at(s, i) by {
        if gap_at(s, i) {
            assert(s[i] == ':' && s[i + 1] == ':');
        }
    }
    lemma_no_gap(s, 0);
    lemma_parts(parts);
    if is_v4_text(s) {
        lemma_v4_lacks_colon(s);
        lemma_split_lacking(s, ':');
    }
    if groups_of(s, true) is Some {
        let g = groups_of(s, true)->0;
        if is_group(parts.last()) {
            assert(g =~= Seq::new(parts.len(), |i: int| value(parts[i], 16) as u16));
            if is_v4_text(parts.last()) {
                lemma_v4_no_group(parts.last());
            }
        } else {
            assert(g.len() == parts.len() + 1);
            assert forall|i: int| 0 <= i < parts.len() - 1 implies g[i] == value(
                #[trigger] parts[i],
                16,
            ) as u16 by {
                assert(front[i] == parts[i]);
            }
        }
    }
}

/// What stands between the colons on one side of a `::`.
pub open spec fn side_parts(s: Seq<char>) -> Seq<Seq<char>> {
    if s.len() == 0 {
        Seq::empty()
    } else {
        split(s, is_char(':'))
    }
}

/// On one side of a `::` there may be nothing; else the pieces stand between colons.
pub proof fn law_side_parts(s: Seq<char>)
    ensures
        side_parts(Seq::<char>::empty()).len() == 0,
        s.len() > 0 ==> side_parts(s) == split(s, is_char(':')),
{
}

/// Of a text with `::`, the groups are those before its first `::` and those after it,
/// with as many zero groups between them as make eight, of which there is at least one.
/// It denotes an IPv6 address exactly if all of these are groups; the last one after the
/// `::` may be an IPv4 address instead, and counts as two.
pub proof fn law_v6_with_gap(s: Seq<char>, k: int)
    requires
        0 <= k < s.len() - 1,
        s[k] == ':',
        s[k + 1] == ':',
        forall|i: int| 0 <= i < k ==> !((#[trigger] s[i]) == ':' && s[i + 1] == ':'),
    ensures
        ({
            let head = side_parts(s.take(k));
            let tail = side_parts(s.skip(k + 2));
            let n = head.len() + tail.len();
            let heads = forall|i: int| 0 <= i < head.len() ==> is_hex_group(#[trigger] head[i]);
            let fronts = forall|i: int|
                0 <= i < tail.len() - 1 ==> is_hex_group(#[trigger] tail[i]);
            let plain = heads && fronts && n <= 7 && (tail.len() > 0 ==> is_hex_group(tail.last()));
            let mixed = heads && fronts && n <= 6 && tail.len() > 0 && (parse_address(
                tail.last(),
            ) matches Some(Address::V4(_)));
            &&& (parse_address(s) matches Some(Address::V6(_))) <==> plain || mixed
            &&& plain ==> parse_address(s) == Some(
                Address::V6(
                    Seq::new(head.len(), |i: int| value(head[i], 16) as u16) + Seq::new(
                        (8 - n) as nat,
                        |i: int| 0u16,
                    ) + Seq::new(tail.len(), |i: int| value(tail[i], 16) as u16),
                ),
            )
            &&& mixed ==> {
                let o = parse_address(tail.last())->0->V4_0;
                parse_address(s) == Some(
                    Address::V6(
                        Seq::new(head.len(), |i: int| value(head[i], 16) as u16) + Seq::new(
                            (7 - n) as nat,
                            |i: int| 0u16,
                        ) + Seq::new(
                            (tail.len() - 1) as nat,
                            |i: int| value(tail[i], 16) as u16,
                        ) + seq![(o[0] * 256 + o[1]) as u16, (o[2] * 256 + o[3]) as u16],
                    ),
                )
            }
        }),
{
    let head = side_parts(s.take(k));
    let tail = side_parts(s.skip(k + 2));
    assert(gap_at(s, k));
    assert forall|i: int| 0 <= i < k implies !#[trigger] gap_at(s, i) by {
        if gap_at(s, i) {
            assert(s[i] == ':' && s[i + 1] == ':');
        }
    }
    lemma_gap(s, 0, k);
    if is_v4_text(s) {
        lemma_v4_lacks_colon(s);
        assert(s[k] != ':');
    }
    lemma_side(s.take(k), false);
    lemma_side(s.skip(k + 2), true);
    let n = head.len() + tail.len();
    if side(s.take(k), false) is Some && side(s.skip(k + 2), true) is Some {
        let h = side(s.take(k), false)->0;
        let t = side(s.skip(k + 2), true)->0;
        assert(zeros(8 - h.len() - t.len()) =~= Seq::new(
            (8 - h.len() - t.len()) as nat,
            |i: int| 0u16,
        ));
        if tail.len() > 0 && is_v4_text(tail.last()) {
            lemma_v4_no_group(tail.last());
            lemma_hex_group(tail.last());
            if n <= 6 {
                let o = v4_octets(tail.last());
                assert(h + zeros(7 - n) + t =~= h + Seq::new((7 - n) as nat, |i: int| 0u16)
                    + Seq::new((tail.len() - 1) as nat, |i: int| value(tail[i], 16) as u16) + seq![
                    (o[0] * 256 + o[1]) as u16,
                    (o[2] * 256 + o[3]) as u16,
                ]);
            }
        }
    }
}

/// What is read on one side of a `::`.
proof fn lemma_side(s: Seq<char>, embedded: bool)
    ensures
        ({
            let parts = side_parts(s);
            let fronts = forall|i: int|
                0 <= i < parts.len() - 1 ==> is_hex_group(#[trigger] parts[i]);
            let all = forall|i: int| 0 <= i < parts.len() ==> is_hex_group(#[trigger] parts[i]);
            let plain = fronts && (parts.len() > 0 ==> is_hex_group(parts.last()));
            let mixed = embedded && fronts && parts.len() > 0 && is_v4_text(parts.last());
            &&& plain <==> all
            &&& side(s, embedded) is Some <==> plain || mixed
            &&& plain ==> side(s, embedded) == Some(
                Seq::new(parts.len(), |i: int| value(parts[i], 16) as u16),
            )
            &&& mixed ==> side(s, embedded) == Some(
                Seq::new((parts.len() - 1) as nat, |i: int| value(parts[i], 16) as u16)
                    + octets_as_groups(v4_octets(parts.last())),
            )
        }),
{
    let parts = side_parts(s);
    let all = forall|i: int| 0 <= i < parts.len() ==> is_hex_group(#[trigger] parts[i]);
    if s.len() == 0 {
        assert(Seq::<u16>::empty() =~= Seq::new(parts.len(), |i: int| value(parts[i], 16) as u16));
    } else {
        let front = parts.drop_last();
        lemma_split_nonempty(s, is_char(':'));
        lemma_parts(parts);
        if all {
            assert(is_hex_group(parts[parts.len() - 1]));
        }
        assert(group_values(front) =~= Seq::new(
            (parts.len() - 1) as nat,
            |i: int| value(parts[i], 16) as u16,
        ));
        if is_v4_text(parts.last()) {
            lemma_v4_no_group(parts.last());
        }
        assert(group_values(front).push(value(parts.last(), 16) as u16) =~= Seq::new(
            parts.len(),
            |i: int| value(parts[i], 16) as u16,
        ));
    }
}

/// The characters that addresses are written with: digits, the letters from `a` to `f` in
/// either case, colons and dots.
pub proof fn law_address_char(c: char)
    ensures
        is_address_char(c) <==> '0' <= c <= ':' || 'a' <= c <= 'f' || 'A' <= c <= 'F' || c == '.',
{
}

/// Pieces are groups in one reading as in the other.
proof fn lemma_parts(parts: Seq<Seq<char>>)
    requires
        parts.len() >= 1,
    ensures
        is_group(parts.last()) <==> is_hex_group(parts.last()),
        (forall|i: int| 0 <= i < parts.len() - 1 ==> is_group(#[trigger] parts.drop_last()[i])) <==> (
        forall|i: int| 0 <= i < parts.len() - 1 ==> is_hex_group(#[trigger] parts[i])),
{
    let front = parts.drop_last();
    lemma_hex_group(parts.last());
    if forall|i: int| 0 <= i < front.len() ==> is_group(#[trigger] front[i]) {
        assert forall|i: int| 0 <= i < parts.len() - 1 implies is_hex_group(#[trigger] parts[i]) by {
            assert(front[i] == parts[i]);
            lemma_hex_group(parts[i]);
        }
    }
    if forall|i: int| 0 <= i < parts.len() - 1 ==> is_hex_group(#[trigger] parts[i]) {
        assert forall|i: int| 0 <= i < front.len() implies is_group(#[trigger] front[i]) by {
            assert(front[i] == parts[i]);
            lemma_hex_group(parts[i]);
        }
    }
}

} // verus!
