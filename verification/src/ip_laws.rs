//! Reading an address's text gives the address back, and only addresses are read.

use vstd::prelude::*;

use crate::ip::{
    address_text, addresses, addresses_among, first_gap, gap_at, group_values, groups_of, groups_text, is_address_char, is_group,
    is_mapped, is_octet, is_v4_text, lemma_longest_run, lemma_zero_run, longest_run, mapped_octets, numerals,
    octets_as_groups, parse_address, parse_v6, side, v4_octets, v4_text, v6_text, zero_run, zeros,
    Address, IpAddr,
};
use crate::text::{
    dec, digits, is_char, is_digit, join, lacks, lemma_digits, lemma_digits_len,
    lemma_numeral_lacks, lemma_split_covers, lemma_split_join, lemma_split_lacking, split, value,
};

verus! {

proof fn lemma_dec_octet(n: u8)
    ensures
        is_octet(dec(n as nat)),
        value(dec(n as nat), 10) == n,
        lacks(dec(n as nat), '.'),
        lacks(dec(n as nat), ':'),
{
    lemma_digits(n as nat, 10);
    lemma_digits_len(n as nat);
    lemma_numeral_lacks(dec(n as nat), 10, '.');
    lemma_numeral_lacks(dec(n as nat), 10, ':');
}

proof fn lemma_hex_group(n: u16)
    ensures
        is_group(digits(n as nat, 16)),
        value(digits(n as nat, 16), 16) == n,
        lacks(digits(n as nat, 16), ':'),
        digits(n as nat, 16).len() >= 1,
{
    lemma_digits(n as nat, 16);
    lemma_digits_len(n as nat);
    lemma_numeral_lacks(digits(n as nat, 16), 16, ':');
}

/// An IPv4 text holds no colon.
pub proof fn lemma_v4_lacks_colon(s: Seq<char>)
    requires
        is_v4_text(s),
    ensures
        lacks(s, ':'),
{
    let p = is_char('.');
    assert forall|k: int| 0 <= k < s.len() implies s[k] != ':' by {
        if s[k] == ':' {
            lemma_split_covers(s, p, k);
            let (i, j) = choose|i: int, j: int|
                0 <= i < split(s, p).len() && 0 <= j < split(s, p)[i].len() && #[trigger] split(
                    s,
                    p,
                )[i][j] == s[k];
            assert(is_octet(split(s, p)[i]));
            assert(is_digit(split(s, p)[i][j], 10));
        }
    }
}

/// An IPv4 text is no group.
pub proof fn lemma_v4_no_group(s: Seq<char>)
    requires
        is_v4_text(s),
    ensures
        !is_group(s),
{
    if is_group(s) {
        lemma_numeral_lacks(s, 16, '.');
        lemma_split_lacking(s, '.');
    }
}

proof fn lemma_v4_text(o: Seq<u8>)
    requires
        o.len() == 4,
    ensures
        is_v4_text(v4_text(o)),
        v4_octets(v4_text(o)) == o,
{
    let p = seq![dec(o[0] as nat), dec(o[1] as nat), dec(o[2] as nat), dec(o[3] as nat)];
    lemma_dec_octet(o[0]);
    lemma_dec_octet(o[1]);
    lemma_dec_octet(o[2]);
    lemma_dec_octet(o[3]);
    lemma_split_join(p, '.');
    assert(v4_octets(v4_text(o)) =~= o);
}

/// The text of one or more groups starts and ends in a digit and holds no `::`.
proof fn lemma_groups_shape(g: Seq<u16>)
    requires
        g.len() >= 1,
    ensures
        groups_text(g).len() >= 1,
        groups_text(g)[0] != ':',
        groups_text(g).last() != ':',
        forall|i: int| !#[trigger] gap_at(groups_text(g), i),
    decreases g.len(),
{
    let t = groups_text(g);
    let n = numerals(g);
    let tail = digits(g.last() as nat, 16);
    lemma_hex_group(g.last());
    assert(n.last() == tail);
    if g.len() == 1 {
        assert(t == tail);
    } else {
        lemma_groups_shape(g.drop_last());
        let front = groups_text(g.drop_last());
        assert(n.drop_last() =~= numerals(g.drop_last()));
        assert(t == front.push(':') + tail);
        assert forall|i: int| !#[trigger] gap_at(t, i) by {
            if gap_at(t, i) {
                if i + 1 < front.len() {
                    assert(gap_at(front, i));
                } else if i + 1 == front.len() {
                    assert(t[i] == front.last());
                } else if i == front.len() {
                    assert(t[i + 1] == tail[0]);
                } else {
                    assert(t[i] == tail[i - front.len() - 1]);
                }
            }
        }
        assert(t[0] == front[0]);
        assert(t.last() == tail.last());
    }
}

/// The text of one or more groups is read as these groups.
proof fn lemma_groups_read(g: Seq<u16>, embedded: bool)
    requires
        g.len() >= 1,
    ensures
        groups_of(groups_text(g), embedded) == Some(g),
{
    let n = numerals(g);
    assert forall|i: int| 0 <= i < n.len() implies lacks(#[trigger] n[i], ':') by {
        lemma_hex_group(g[i]);
    }
    lemma_split_join(n, ':');
    let front = n.drop_last();
    assert forall|i: int| 0 <= i < front.len() implies is_group(#[trigger] front[i]) by {
        lemma_hex_group(g[i]);
    }
    lemma_hex_group(g.last());
    assert(n.last() == digits(g.last() as nat, 16));
    let read = group_values(front).push(value(n.last(), 16) as u16);
    assert forall|i: int| 0 <= i < g.len() implies read[i] == g[i] by {
        lemma_hex_group(g[i]);
    }
    assert(read =~= g);
}

proof fn lemma_side_read(g: Seq<u16>, embedded: bool)
    ensures
        side(groups_text(g), embedded) == Some(g),
{
    if g.len() == 0 {
        assert(g =~= Seq::<u16>::empty());
    } else {
        lemma_groups_shape(g);
        lemma_groups_read(g, embedded);
    }
}

pub proof fn lemma_no_gap(s: Seq<char>, from: int)
    requires
        0 <= from,
        forall|i: int| from <= i ==> !#[trigger] gap_at(s, i),
    ensures
        first_gap(s, from) is None,
    decreases s.len() - from,
{
    if from + 1 < s.len() {
        lemma_no_gap(s, from + 1);
    }
}

pub proof fn lemma_gap(s: Seq<char>, from: int, k: int)
    requires
        0 <= from <= k,
        gap_at(s, k),
        forall|i: int| from <= i < k ==> !#[trigger] gap_at(s, i),
    ensures
        first_gap(s, from) == Some(k),
    decreases k - from,
{
    if from < k {
        lemma_gap(s, from + 1, k);
    }
}

proof fn lemma_mapped_read(g: Seq<u16>)
    requires
        g.len() == 8,
        is_mapped(g),
    ensures
        parse_v6(v6_text(g)) == Some(g),
        !lacks(v6_text(g), ':'),
{
    let o = mapped_octets(g);
    let v4 = v4_text(o);
    let s = v6_text(g);
    lemma_v4_text(o);
    lemma_v4_lacks_colon(v4);
    lemma_v4_no_group(v4);
    reveal_strlit("::ffff:");
    assert(s[0] == ':');
    lemma_gap(s, 0, 0);
    assert(s.take(0) =~= Seq::<char>::empty());
    let mark: Seq<char> = seq!['f', 'f', 'f', 'f'];
    let parts = seq![mark, v4];
    reveal_with_fuel(join, 3);
    assert(parts.drop_last() =~= seq![mark]);
    assert(s.skip(2) =~= join(parts, ':'));
    assert(lacks(mark, ':'));
    lemma_split_join(parts, ':');
    assert(is_group(mark)) by {
        assert forall|i: int| 0 <= i < mark.len() implies is_digit(#[trigger] mark[i], 16) by {}
    }
    assert(value(mark, 16) == 0xffff) by {
        reveal_with_fuel(value, 5);
        assert(mark.drop_last() =~= seq!['f', 'f', 'f']);
        assert(mark.drop_last().drop_last() =~= seq!['f', 'f']);
        assert(mark.drop_last().drop_last().drop_last() =~= seq!['f']);
        assert(mark.drop_last().drop_last().drop_last().drop_last() =~= Seq::<char>::empty());
    }
    let tail = group_values(parts.drop_last()) + octets_as_groups(o);
    assert(groups_of(s.skip(2), true) == Some(tail));
    assert(side(s.skip(2), true) == Some(tail));
    assert(Seq::<u16>::empty() + zeros(5) + tail =~= g);
}

proof fn lemma_compressed_read(g: Seq<u16>)
    requires
        g.len() == 8,
        !is_mapped(g),
        zero_run(g, longest_run(g, 0)) > 1,
    ensures
        parse_v6(v6_text(g)) == Some(g),
        !lacks(v6_text(g), ':'),
{
    let start = longest_run(g, 0);
    let len = zero_run(g, start);
    lemma_longest_run(g, 0);
    lemma_zero_run(g, start);
    let h = g.take(start);
    let t = g.skip(start + len);
    let ht = groups_text(h);
    let tt = groups_text(t);
    let s = v6_text(g);
    reveal_strlit("::");
    assert(s == ht + "::"@ + tt);
    lemma_side_read(h, false);
    lemma_side_read(t, true);
    let k = ht.len() as int;
    assert(s[k] == ':' && s[k + 1] == ':');
    assert forall|i: int| 0 <= i < k implies !#[trigger] gap_at(s, i) by {
        assert(h.len() >= 1) by {
            if h.len() == 0 {
                assert(numerals(h) =~= Seq::<Seq<char>>::empty());
            }
        }
        lemma_groups_shape(h);
        if i + 1 < k {
            assert(!gap_at(ht, i));
            assert(s[i] == ht[i] && s[i + 1] == ht[i + 1]);
        } else {
            assert(s[i] == ht.last());
        }
    }
    lemma_gap(s, 0, k);
    assert(s.take(k) =~= ht);
    assert(s.skip(k + 2) =~= tt);
    assert(h + zeros(8 - h.len() - t.len()) + t =~= g);
}

proof fn lemma_plain_read(g: Seq<u16>)
    requires
        g.len() == 8,
        !is_mapped(g),
        zero_run(g, longest_run(g, 0)) <= 1,
    ensures
        parse_v6(v6_text(g)) == Some(g),
        !lacks(v6_text(g), ':'),
{
    let s = v6_text(g);
    lemma_groups_shape(g);
    lemma_groups_read(g, true);
    lemma_no_gap(s, 0);
    let front = groups_text(g.drop_last());
    assert(numerals(g).drop_last() =~= numerals(g.drop_last()));
    assert(s[front.len() as int] == ':');
}

/// Reading the text of an address gives that address: what is listed as banned
/// can be handed back as it stands, to lift the ban.
pub proof fn law_text_round_trip(a: Address)
    requires
        a.valid(),
    ensures
        parse_address(address_text(a)) == Some(a),
{
    match a {
        Address::V4(o) => {
            lemma_v4_text(o);
        },
        Address::V6(g) => {
            if is_mapped(g) {
                lemma_mapped_read(g);
            } else if zero_run(g, longest_run(g, 0)) > 1 {
                lemma_compressed_read(g);
            } else {
                lemma_plain_read(g);
            }
            if is_v4_text(v6_text(g)) {
                lemma_v4_lacks_colon(v6_text(g));
            }
        },
    }
}

/// Two addresses with the same text are the same address.
pub proof fn law_text_injective(a: Address, b: Address)
    requires
        a.valid(),
        b.valid(),
        address_text(a) == address_text(b),
    ensures
        a == b,
{
    law_text_round_trip(a);
    law_text_round_trip(b);
}

// ---------------------------------------------------------------------------
// What addresses are written with
// ---------------------------------------------------------------------------

proof fn lemma_v4_chars(s: Seq<char>)
    requires
        is_v4_text(s),
    ensures
        forall|k: int| 0 <= k < s.len() ==> is_address_char(#[trigger] s[k]),
{
    let p = is_char('.');
    assert forall|k: int| 0 <= k < s.len() implies is_address_char(#[trigger] s[k]) by {
        if s[k] != '.' {
            lemma_split_covers(s, p, k);
            let (i, j) = choose|i: int, j: int|
                0 <= i < split(s, p).len() && 0 <= j < split(s, p)[i].len() && #[trigger] split(
                    s,
                    p,
                )[i][j] == s[k];
            assert(is_octet(split(s, p)[i]));
            assert(is_digit(split(s, p)[i][j], 10));
        }
    }
}

proof fn lemma_side_chars(s: Seq<char>, embedded: bool)
    requires
        side(s, embedded) is Some,
    ensures
        forall|k: int| 0 <= k < s.len() ==> is_address_char(#[trigger] s[k]),
{
    let p = is_char(':');
    let parts = split(s, p);
    let front = parts.drop_last();
    assert forall|k: int| 0 <= k < s.len() implies is_address_char(#[trigger] s[k]) by {
        if s[k] != ':' {
            lemma_split_covers(s, p, k);
            let (i, j) = choose|i: int, j: int|
                0 <= i < split(s, p).len() && 0 <= j < split(s, p)[i].len() && #[trigger] split(
                    s,
                    p,
                )[i][j] == s[k];
            if i < front.len() {
                assert(is_group(front[i]));
                assert(is_digit(parts[i][j], 16));
            } else if is_group(parts.last()) {
                assert(is_digit(parts[i][j], 16));
            } else {
                lemma_v4_chars(parts.last());
                assert(is_address_char(parts.last()[j]));
            }
        }
    }
}

proof fn lemma_first_gap(s: Seq<char>, from: int)
    requires
        0 <= from,
    ensures
        first_gap(s, from) is Some ==> gap_at(s, first_gap(s, from)->0),
    decreases s.len() - from,
{
    if from + 1 < s.len() && !gap_at(s, from) {
        lemma_first_gap(s, from + 1);
    }
}

/// Whatever is read as an address consists of hexadecimal digits, colons and dots.
pub proof fn law_address_characters(s: Seq<char>)
    requires
        parse_address(s) is Some,
    ensures
        forall|k: int| 0 <= k < s.len() ==> is_address_char(#[trigger] s[k]),
{
    if is_v4_text(s) {
        lemma_v4_chars(s);
    } else {
        match first_gap(s, 0) {
            None => {
                if s.len() > 0 {
                    lemma_side_chars(s, true);
                }
            },
            Some(i) => {
                lemma_first_gap(s, 0);
                let head = s.take(i);
                let tail = s.skip(i + 2);
                lemma_side_chars(head, false);
                lemma_side_chars(tail, true);
                assert forall|k: int| 0 <= k < s.len() implies is_address_char(
                    #[trigger] s[k],
                ) by {
                    if k < i {
                        assert(is_address_char(head[k]));
                    } else if k >= i + 2 {
                        assert(is_address_char(tail[k - i - 2]));
                    }
                }
            },
        }
    }
}

/// The text of an address consists of one or more hexadecimal digits, colons and
/// dots.
pub proof fn law_text_characters(a: Address)
    requires
        a.valid(),
    ensures
        address_text(a).len() > 0,
        forall|k: int| 0 <= k < address_text(a).len() ==> is_address_char(
            #[trigger] address_text(a)[k],
        ),
{
    law_text_round_trip(a);
    law_address_characters(address_text(a));
    if address_text(a).len() == 0 {
        let s = address_text(a);
        assert(split(s, is_char('.')).len() == 1);
        assert(split(s, is_char(':')).last().len() == 0);
        assert(!is_v4_text(s));
    }
}

/// A CIDR range is no address.
pub proof fn law_range_is_no_address(s: Seq<char>)
    requires
        s.contains('/'),
    ensures
        parse_address(s) is None,
{
    let k = choose|k: int| 0 <= k < s.len() && s[k] == '/';
    if parse_address(s) is Some {
        law_address_characters(s);
        assert(is_address_char(s[k]));
    }
}

// ---------------------------------------------------------------------------
// Addresses among texts
// ---------------------------------------------------------------------------

/// The addresses among texts are what the texts that are addresses denote, every one of
/// them, in order and as often as it occurs.
pub proof fn law_addresses_among_in_order(texts: Seq<Seq<char>>)
    ensures
        addresses_among(texts) == texts.filter(
            |t: Seq<char>| parse_address(t) is Some,
        ).map_values(|t: Seq<char>| parse_address(t)->0),
    decreases texts.len(),
{
    let keep = |t: Seq<char>| parse_address(t) is Some;
    let read = |t: Seq<char>| parse_address(t)->0;
    reveal(Seq::filter);
    if texts.len() > 0 {
        let front = texts.drop_last();
        law_addresses_among_in_order(front);
        if keep(texts.last()) {
            assert(texts.filter(keep) =~= front.filter(keep).push(texts.last()));
            assert(front.filter(keep).push(texts.last()).map_values(read) =~= front.filter(
                keep,
            ).map_values(read).push(read(texts.last())));
        } else {
            assert(texts.filter(keep) =~= front.filter(keep));
        }
    } else {
        assert(texts.filter(keep) =~= texts);
        assert(texts.map_values(read) =~= Seq::<Address>::empty());
    }
}

/// Addresses are viewed one by one, and different ones differently.
pub proof fn law_addresses_are_viewed_one_by_one(v: Seq<IpAddr>, i: int)
    ensures
        addresses(v).len() == v.len(),
        0 <= i < v.len() ==> addresses(v)[i] == v[i]@,
        0 <= i < v.len() ==> match v[i] {
            IpAddr::V4(o) => addresses(v)[i] == Address::V4(o@),
            IpAddr::V6(g) => addresses(v)[i] == Address::V6(g@),
        },
{
}

/// An IPv4 address has four octets and an IPv6 address eight groups, and that is all that
/// is asked of them.
pub proof fn law_valid_addresses(o: Seq<u8>, g: Seq<u16>, ip: IpAddr)
    ensures
        Address::V4(o).valid() <==> o.len() == 4,
        Address::V6(g).valid() <==> g.len() == 8,
        ip@.valid(),
{
}

} // verus!
