//! IP addresses and their textual forms.
//!
//! IPv4 addresses are read and written as four decimal numbers with dots between
//! them. IPv6 addresses are read in every form of RFC 4291, section 2.2: eight
//! hexadecimal groups, with at most one `::` in place of one or more zero groups,
//! and with the last two groups optionally written as an IPv4 address. They are
//! written in the form of RFC 5952.

use vstd::prelude::*;

use crate::command::strings;
use crate::text::{
    chars_of, dec, digits, is_char, is_digit, is_numeral, join, push_dec, push_digits, read_numeral, split,
    value, views, Separator,
};

verus! {

/// An address as mathematics: its four octets, or its eight groups of sixteen
/// bits.
#[verifier::ext_equal]
pub enum Address {
    V4(Seq<u8>),
    V6(Seq<u16>),
}

impl Address {
    /// The address has as many octets, or groups, as its family has.
    pub open spec fn valid(self) -> bool {
        match self {
            Address::V4(octets) => octets.len() == 4,
            Address::V6(groups) => groups.len() == 8,
        }
    }
}

/// An IPv4 address, by its octets, or an IPv6 address, by its groups.
#[derive(Clone, Copy, Debug, PartialEq, Eq)]
pub enum IpAddr {
    V4([u8; 4]),
    V6([u16; 8]),
}

impl View for IpAddr {
    type V = Address;

    open spec fn view(&self) -> Address {
        match self {
            IpAddr::V4(octets) => Address::V4(octets@),
            IpAddr::V6(groups) => Address::V6(groups@),
        }
    }
}

// ---------------------------------------------------------------------------
// Reading
// ---------------------------------------------------------------------------

/// A hexadecimal digit, a colon or a dot: what addresses are written with.
pub open spec fn is_address_char(c: char) -> bool {
    is_digit(c, 16) || c == ':' || c == '.'
}

/// A decimal number up to 255, of one to three digits and without leading zeros.
pub open spec fn is_octet(s: Seq<char>) -> bool {
    &&& is_numeral(s, 10)
    &&& s.len() <= 3
    &&& s.len() > 1 ==> s[0] != '0'
    &&& value(s, 10) <= 255
}

/// Four octets with dots between them.
pub open spec fn is_v4_text(s: Seq<char>) -> bool {
    let parts = split(s, is_char('.'));
    parts.len() == 4 && forall|i: int| 0 <= i < 4 ==> is_octet(#[trigger] parts[i])
}

/// The octets that such a text denotes.
pub open spec fn v4_octets(s: Seq<char>) -> Seq<u8> {
    Seq::new(4, |i: int| value(split(s, is_char('.'))[i], 10) as u8)
}

/// One to four hexadecimal digits.
pub open spec fn is_group(s: Seq<char>) -> bool {
    is_numeral(s, 16) && s.len() <= 4
}

/// The groups that texts of single groups denote.
pub open spec fn group_values(parts: Seq<Seq<char>>) -> Seq<u16> {
    Seq::new(parts.len(), |i: int| value(parts[i], 16) as u16)
}

/// The two groups that the four octets of an embedded IPv4 address make up.
pub open spec fn octets_as_groups(o: Seq<u8>) -> Seq<u16> {
    seq![(o[0] * 256 + o[1]) as u16, (o[2] * 256 + o[3]) as u16]
}

/// The groups of a text of groups with single colons between them. Where
/// `embedded` allows it, the last one may be an IPv4 address instead, which makes
/// two groups.
pub open spec fn groups_of(s: Seq<char>, embedded: bool) -> Option<Seq<u16>> {
    let parts = split(s, is_char(':'));
    let front = parts.drop_last();
    if !(forall|i: int| 0 <= i < front.len() ==> is_group(#[trigger] front[i])) {
        None
    } else if is_group(parts.last()) {
        Some(group_values(front).push(value(parts.last(), 16) as u16))
    } else if embedded && is_v4_text(parts.last()) {
        Some(group_values(front) + octets_as_groups(v4_octets(parts.last())))
    } else {
        None
    }
}

/// The groups on one side of a `::`, where there may be none.
pub open spec fn side(s: Seq<char>, embedded: bool) -> Option<Seq<u16>> {
    if s.len() == 0 {
        Some(Seq::<u16>::empty())
    } else {
        groups_of(s, embedded)
    }
}

/// Two colons stand at position `i`.
pub open spec fn gap_at(s: Seq<char>, i: int) -> bool {
    0 <= i && i + 1 < s.len() && s[i] == ':' && s[i + 1] == ':'
}

/// The first position from `from` on at which two colons stand.
pub open spec fn first_gap(s: Seq<char>, from: int) -> Option<int>
    decreases s.len() - from,
{
    if from + 1 >= s.len() {
        None
    } else if gap_at(s, from) {
        Some(from)
    } else {
        first_gap(s, from + 1)
    }
}

/// `n` zero groups.
pub open spec fn zeros(n: int) -> Seq<u16> {
    Seq::new(n as nat, |i: int| 0u16)
}

/// The eight groups that an IPv6 text denotes; `None` if it is none. A `::`
/// stands for at least one group, and an IPv4 address may only come last.
pub open spec fn parse_v6(s: Seq<char>) -> Option<Seq<u16>> {
    match first_gap(s, 0) {
        None => {
            let groups = groups_of(s, true);
            if groups is Some && groups->0.len() == 8 {
                groups
            } else {
                None
            }
        },
        Some(i) => {
            let head = side(s.take(i), false);
            let tail = side(s.skip(i + 2), true);
            if head is Some && tail is Some && head->0.len() + tail->0.len() <= 7 {
                Some(head->0 + zeros(8 - head->0.len() - tail->0.len()) + tail->0)
            } else {
                None
            }
        },
    }
}

/// The address that a text denotes; `None` if it is no address.
pub open spec fn parse_address(s: Seq<char>) -> Option<Address> {
    if is_v4_text(s) {
        Some(Address::V4(v4_octets(s)))
    } else {
        match parse_v6(s) {
            Some(groups) => Some(Address::V6(groups)),
            None => None,
        }
    }
}

/// Whatever is read has as many octets, or groups, as its family has.
pub proof fn law_read_is_valid(s: Seq<char>)
    ensures
        parse_address(s) is Some ==> parse_address(s)->0.valid(),
{
}

fn read_octets(s: &Vec<char>) -> (r: Option<[u8; 4]>)
    ensures
        r is Some <==> is_v4_text(s@),
        r is Some ==> r->0@ == v4_octets(s@),
{
    let parts: Vec<Vec<char>> = Separator::Only('.').split(s);
    let ghost pieces = split(s@, is_char('.'));
    assert(views(parts@) == pieces);
    if parts.len() != 4 {
        return None;
    }
    let mut octets: [u8; 4] = [0, 0, 0, 0];
    let mut i: usize = 0;
    while i < 4
        invariant
            i <= 4,
            parts.len() == 4,
            views(parts@) == pieces,
            pieces == split(s@, is_char('.')),
            forall|k: int| 0 <= k < i ==> is_octet(#[trigger] pieces[k]),
            forall|k: int| 0 <= k < i ==> octets@[k] == value(#[trigger] pieces[k], 10) as u8,
        decreases 4 - i,
    {
        let part: &Vec<char> = &parts[i];
        assert(pieces[i as int] == part@);
        match read_numeral(part, 10, 3) {
            None => {
                assert(!is_octet(pieces[i as int]));
                return None;
            },
            Some(v) => {
                if v > 255 || (part.len() > 1 && part[0] == '0') {
                    assert(!is_octet(pieces[i as int]));
                    return None;
                }
                octets[i] = v as u8;
            },
        }
        i += 1;
    }
    assert(octets@ =~= v4_octets(s@));
    Some(octets)
}

fn read_groups(s: &Vec<char>, embedded: bool) -> (r: Option<Vec<u16>>)
    ensures
        match groups_of(s@, embedded) {
            Some(groups) => r is Some && r->0@ == groups,
            None => r is None,
        },
{
    let parts: Vec<Vec<char>> = Separator::Only(':').split(s);
    let ghost pieces = split(s@, is_char(':'));
    proof {
        crate::text::lemma_split_nonempty(s@, is_char(':'));
    }
    assert(views(parts@).len() == parts@.len());
    let ghost front = pieces.drop_last();
    let last: usize = parts.len() - 1;
    let mut groups: Vec<u16> = Vec::new();
    let mut i: usize = 0;
    while i < last
        invariant
            i <= last,
            last == parts.len() - 1,
            views(parts@) == pieces,
            pieces == split(s@, is_char(':')),
            front == pieces.drop_last(),
            groups@.len() == i,
            forall|k: int| 0 <= k < i ==> is_group(#[trigger] front[k]),
            forall|k: int| 0 <= k < i ==> groups@[k] == value(#[trigger] front[k], 16) as u16,
        decreases last - i,
    {
        assert(front[i as int] == parts@[i as int]@);
        match read_numeral(&parts[i], 16, 4) {
            None => {
                assert(!is_group(front[i as int]));
                return None;
            },
            Some(v) => {
                groups.push(v as u16);
            },
        }
        i += 1;
    }
    assert(groups@ =~= group_values(front));
    assert(pieces.last() == parts@[last as int]@);
    match read_numeral(&parts[last], 16, 4) {
        Some(v) => {
            groups.push(v as u16);
            Some(groups)
        },
        None => {
            if !embedded {
                return None;
            }
            match read_octets(&parts[last]) {
                None => None,
                Some(o) => {
                    groups.push(o[0] as u16 * 256 + o[1] as u16);
                    groups.push(o[2] as u16 * 256 + o[3] as u16);
                    assert(groups@ =~= group_values(front) + octets_as_groups(o@));
                    Some(groups)
                },
            }
        },
    }
}

fn read_side(s: &Vec<char>, embedded: bool) -> (r: Option<Vec<u16>>)
    ensures
        match side(s@, embedded) {
            Some(groups) => r is Some && r->0@ == groups,
            None => r is None,
        },
{
    if s.len() == 0 {
        Some(Vec::new())
    } else {
        read_groups(s, embedded)
    }
}

fn find_gap(s: &Vec<char>) -> (r: Option<usize>)
    ensures
        match first_gap(s@, 0) {
            Some(i) => r is Some && r->0 == i && gap_at(s@, i),
            None => r is None,
        },
{
    let mut i: usize = 0;
    while i < s.len() && s.len() - i > 1
        invariant
            i <= s.len(),
            first_gap(s@, 0) == first_gap(s@, i as int),
        decreases s.len() - i,
    {
        if s[i] == ':' && s[i + 1] == ':' {
            return Some(i);
        }
        i += 1;
    }
    None
}

fn as_groups(v: &Vec<u16>) -> (r: [u16; 8])
    requires
        v@.len() == 8,
    ensures
        r@ == v@,
{
    let r: [u16; 8] = [v[0], v[1], v[2], v[3], v[4], v[5], v[6], v[7]];
    assert(r@ =~= v@);
    r
}

fn read_v6(s: &Vec<char>) -> (r: Option<[u16; 8]>)
    ensures
        match parse_v6(s@) {
            Some(groups) => r is Some && r->0@ == groups,
            None => r is None,
        },
{
    match find_gap(s) {
        None => match read_groups(s, true) {
            None => None,
            Some(groups) => if groups.len() == 8 {
                Some(as_groups(&groups))
            } else {
                None
            },
        },
        Some(gap) => {
            let mut before: Vec<char> = Vec::new();
            let mut after: Vec<char> = Vec::new();
            let mut i: usize = 0;
            while i < s.len()
                invariant
                    i <= s.len(),
                    gap_at(s@, gap as int),
                    i <= gap ==> before@ == s@.take(i as int),
                    i >= gap ==> before@ == s@.take(gap as int),
                    i <= gap + 2 ==> after@.len() == 0,
                    i >= gap + 2 ==> after@ == s@.subrange(gap + 2, i as int),
                decreases s.len() - i,
            {
                if i < gap {
                    before.push(s[i]);
                    assert(before@ =~= s@.take(i as int + 1));
                } else if i - gap >= 2 {
                    after.push(s[i]);
                    assert(after@ =~= s@.subrange(gap + 2, i as int + 1));
                } else {
                    assert(after@ =~= s@.subrange(gap + 2, gap + 2));
                }
                i += 1;
            }
            assert(after@ =~= s@.skip(gap + 2));
            let head: Option<Vec<u16>> = read_side(&before, false);
            let tail: Option<Vec<u16>> = read_side(&after, true);
            match (head, tail) {
                (Some(head), Some(tail)) => {
                    if head.len() > 7 || tail.len() > 7 - head.len() {
                        return None;
                    }
                    let mut groups: Vec<u16> = head;
                    let ghost h = groups@;
                    while groups.len() < 8 - tail.len()
                        invariant
                            h.len() <= groups@.len() <= 8 - tail@.len(),
                            h.len() + tail@.len() <= 7,
                            groups@ == h + zeros(groups@.len() - h.len()),
                        decreases 8 - groups@.len(),
                    {
                        groups.push(0);
                        assert(groups@ =~= h + zeros(groups@.len() - h.len()));
                    }
                    let ghost filled = groups@;
                    let mut k: usize = 0;
                    while k < tail.len()
                        invariant
                            k <= tail.len(),
                            groups@ == filled + tail@.take(k as int),
                        decreases tail.len() - k,
                    {
                        groups.push(tail[k]);
                        assert(groups@ =~= filled + tail@.take(k as int + 1));
                        k += 1;
                    }
                    assert(tail@.take(tail@.len() as int) =~= tail@);
                    Some(as_groups(&groups))
                },
                _ => None,
            }
        },
    }
}

impl IpAddr {
    /// Reads an address from its characters.
    pub fn from_chars(s: &Vec<char>) -> (r: Option<IpAddr>)
        ensures
            match parse_address(s@) {
                Some(a) => r is Some && r->0@ == a,
                None => r is None,
            },
    {
        match read_octets(s) {
            Some(octets) => Some(IpAddr::V4(octets)),
            None => match read_v6(s) {
                Some(groups) => Some(IpAddr::V6(groups)),
                None => None,
            },
        }
    }

    /// Reads an address: `None` for anything but the text of one address, such
    /// as a name, a CIDR range or an address with a port.
    pub fn parse(s: &str) -> (r: Option<IpAddr>)
        ensures
            match parse_address(s@) {
                Some(a) => r is Some && r->0@ == a,
                None => r is None,
            },
    {
        let chars: Vec<char> = chars_of(s);
        IpAddr::from_chars(&chars)
    }
}

// ---------------------------------------------------------------------------
// Writing
// ---------------------------------------------------------------------------

/// Four decimal numbers with dots between them.
pub open spec fn v4_text(o: Seq<u8>) -> Seq<char> {
    join(
        seq![dec(o[0] as nat), dec(o[1] as nat), dec(o[2] as nat), dec(o[3] as nat)],
        '.',
    )
}

/// The hexadecimal numerals of the groups, without leading zeros.
pub open spec fn numerals(g: Seq<u16>) -> Seq<Seq<char>> {
    Seq::new(g.len(), |i: int| digits(g[i] as nat, 16))
}

/// The groups in hexadecimal with colons between them.
pub open spec fn groups_text(g: Seq<u16>) -> Seq<char> {
    join(numerals(g), ':')
}

/// How many zero groups follow one another from position `i` on.
pub open spec fn zero_run(g: Seq<u16>, i: int) -> nat
    decreases g.len() - i,
{
    if 0 <= i < g.len() && g[i] == 0 {
        1 + zero_run(g, i + 1)
    } else {
        0
    }
}

/// The first position, from `i` on, at which the longest run of zero groups
/// starts.
pub open spec fn longest_run(g: Seq<u16>, i: int) -> int
    decreases g.len() - i,
{
    if i >= g.len() {
        i
    } else {
        let later = longest_run(g, i + 1);
        if zero_run(g, i) >= zero_run(g, later) {
            i
        } else {
            later
        }
    }
}

/// An IPv4 address in the range `::ffff:0:0/96`.
pub open spec fn is_mapped(g: Seq<u16>) -> bool {
    &&& forall|i: int| 0 <= i < 5 ==> g[i] == 0
    &&& g[5] == 0xffff
}

/// The octets of the IPv4 address in the last two groups.
pub open spec fn mapped_octets(g: Seq<u16>) -> Seq<u8> {
    seq![(g[6] / 256) as u8, (g[6] % 256) as u8, (g[7] / 256) as u8, (g[7] % 256) as u8]
}

/// The groups with `::` in place of the first longest run of two or more zero
/// groups; an IPv4-mapped address ends in its IPv4 form.
pub open spec fn v6_text(g: Seq<u16>) -> Seq<char> {
    let start = longest_run(g, 0);
    let len = zero_run(g, start);
    if is_mapped(g) {
        "::ffff:"@ + v4_text(mapped_octets(g))
    } else if len > 1 {
        groups_text(g.take(start)) + "::"@ + groups_text(g.skip(start + len))
    } else {
        groups_text(g)
    }
}

/// The text of an address.
pub open spec fn address_text(a: Address) -> Seq<char> {
    match a {
        Address::V4(o) => v4_text(o),
        Address::V6(g) => v6_text(g),
    }
}

/// A run of zero groups ends within the groups, and consists of zeros.
pub proof fn lemma_zero_run(g: Seq<u16>, i: int)
    requires
        0 <= i <= g.len(),
    ensures
        i + zero_run(g, i) <= g.len(),
        forall|k: int| i <= k < i + zero_run(g, i) ==> g[k] == 0,
    decreases g.len() - i,
{
    if i < g.len() && g[i] == 0 {
        lemma_zero_run(g, i + 1);
    }
}

pub proof fn lemma_longest_run(g: Seq<u16>, i: int)
    requires
        0 <= i <= g.len(),
    ensures
        i <= longest_run(g, i) <= g.len(),
        forall|k: int| i <= k <= g.len() ==> #[trigger] zero_run(g, k) <= zero_run(g, longest_run(g, i)),
        forall|k: int| i <= k < longest_run(g, i) ==> #[trigger] zero_run(g, k) < zero_run(
            g,
            longest_run(g, i),
        ),
    decreases g.len() - i,
{
    if i < g.len() {
        lemma_longest_run(g, i + 1);
    }
}

fn push_v4(out: &mut String, a: u8, b: u8, c: u8, d: u8)
    ensures
        final(out)@ == old(out)@ + v4_text(seq![a, b, c, d]),
{
    push_dec(out, a as u64);
    out.push('.');
    push_dec(out, b as u64);
    out.push('.');
    push_dec(out, c as u64);
    out.push('.');
    push_dec(out, d as u64);
    proof {
        let p = seq![dec(a as nat), dec(b as nat), dec(c as nat), dec(d as nat)];
        reveal_with_fuel(join, 5);
        assert(p.drop_last() =~= seq![dec(a as nat), dec(b as nat), dec(c as nat)]);
        assert(p.drop_last().drop_last() =~= seq![dec(a as nat), dec(b as nat)]);
        assert(p.drop_last().drop_last().drop_last() =~= seq![dec(a as nat)]);
        assert(out@ =~= old(out)@ + join(p, '.'));
    }
}

/// Appends the groups from `from` up to `to`, with colons between them.
fn push_groups(out: &mut String, g: &[u16; 8], from: usize, to: usize)
    requires
        from <= to <= 8,
    ensures
        final(out)@ == old(out)@ + groups_text(g@.subrange(from as int, to as int)),
{
    let mut i: usize = from;
    assert(numerals(g@.subrange(from as int, from as int)) =~= Seq::<Seq<char>>::empty());
    assert(out@ =~= old(out)@ + groups_text(g@.subrange(from as int, i as int)));
    while i < to
        invariant
            from <= i <= to <= 8,
            out@ == old(out)@ + groups_text(g@.subrange(from as int, i as int)),
        decreases to - i,
    {
        if i > from {
            out.push(':');
        }
        push_digits(out, g[i] as u64, 16);
        proof {
            let done = numerals(g@.subrange(from as int, i as int));
            let more = numerals(g@.subrange(from as int, i as int + 1));
            assert(more.drop_last() =~= done);
            assert(more.last() == digits(g@[i as int] as nat, 16));
            assert(out@ =~= old(out)@ + groups_text(g@.subrange(from as int, i as int + 1)));
        }
        i += 1;
    }
}

/// The first longest run of zero groups: where it starts, and how long it is.
fn find_zeros(g: &[u16; 8]) -> (r: (usize, usize))
    ensures
        r.0 == longest_run(g@, 0),
        r.1 == zero_run(g@, longest_run(g@, 0)),
        r.0 + r.1 <= 8,
{
    let mut i: usize = 8;
    let mut run: usize = 0;
    let mut start: usize = 8;
    let mut len: usize = 0;
    while i > 0
        invariant
            i <= 8,
            run == zero_run(g@, i as int),
            run <= 8 - i,
            start == longest_run(g@, i as int),
            len == zero_run(g@, start as int),
        decreases i,
    {
        i -= 1;
        if g[i] == 0 {
            run += 1;
        } else {
            run = 0;
        }
        if run >= len {
            start = i;
            len = run;
        }
    }
    proof {
        lemma_longest_run(g@, 0);
        lemma_zero_run(g@, start as int);
    }
    (start, len)
}

impl IpAddr {
    /// Appends the address's text.
    pub fn push_text(&self, out: &mut String)
        ensures
            final(out)@ == old(out)@ + address_text(self@),
    {
        match self {
            IpAddr::V4(o) => {
                push_v4(out, o[0], o[1], o[2], o[3]);
                assert(seq![o@[0], o@[1], o@[2], o@[3]] =~= o@);
            },
            IpAddr::V6(g) => {
                if g[0] == 0 && g[1] == 0 && g[2] == 0 && g[3] == 0 && g[4] == 0 && g[5] == 0xffff {
                    out.append("::ffff:");
                    push_v4(
                        out,
                        (g[6] / 256) as u8,
                        (g[6] % 256) as u8,
                        (g[7] / 256) as u8,
                        (g[7] % 256) as u8,
                    );
                    assert(is_mapped(g@));
                    assert(out@ =~= old(out)@ + v6_text(g@));
                } else {
                    assert(!is_mapped(g@)) by {
                        if is_mapped(g@) {
                            assert(g@[0] == 0 && g@[1] == 0 && g@[2] == 0 && g@[3] == 0 && g@[4]
                                == 0);
                        }
                    }
                    let (start, len) = find_zeros(g);
                    if len > 1 {
                        push_groups(out, g, 0, start);
                        out.append("::");
                        push_groups(out, g, start + len, 8);
                        assert(g@.subrange(0, start as int) =~= g@.take(start as int));
                        assert(g@.subrange(start + len, 8) =~= g@.skip(start + len));
                        assert(out@ =~= old(out)@ + v6_text(g@));
                    } else {
                        push_groups(out, g, 0, 8);
                        assert(g@.subrange(0, 8) =~= g@);
                    }
                }
            },
        }
    }

    /// The address's text.
    pub fn to_text(&self) -> (r: String)
        ensures
            r@ == address_text(self@),
    {
        let mut r: String = String::new();
        self.push_text(&mut r);
        assert(r@ =~= address_text(self@));
        r
    }
}

// ---------------------------------------------------------------------------
// Addresses among texts
// ---------------------------------------------------------------------------

/// The addresses among the texts, in order.
pub open spec fn addresses_among(texts: Seq<Seq<char>>) -> Seq<Address>
    decreases texts.len(),
{
    if texts.len() == 0 {
        Seq::<Address>::empty()
    } else {
        let front = addresses_among(texts.drop_last());
        match parse_address(texts.last()) {
            Some(a) => front.push(a),
            None => front,
        }
    }
}

/// The views of addresses.
pub open spec fn addresses(v: Seq<IpAddr>) -> Seq<Address> {
    Seq::new(v.len(), |i: int| v[i]@)
}

/// The addresses of the texts that are addresses; the others are dropped.
pub fn parse_all(texts: &Vec<String>) -> (r: Vec<IpAddr>)
    ensures
        addresses(r@) == addresses_among(strings(texts@)),
{
    let mut ips: Vec<IpAddr> = Vec::new();
    let mut i: usize = 0;
    let ghost all = strings(texts@);
    assert(addresses(ips@) =~= addresses_among(all.take(0)));
    while i < texts.len()
        invariant
            i <= texts.len(),
            all == strings(texts@),
            addresses(ips@) == addresses_among(all.take(i as int)),
        decreases texts.len() - i,
    {
        assert(all.take(i as int + 1).drop_last() =~= all.take(i as int));
        let ghost before = ips@;
        match IpAddr::parse(texts[i].as_str()) {
            Some(ip) => {
                ips.push(ip);
                assert(addresses(ips@) =~= addresses(before).push(ip@));
            },
            None => {},
        }
        i += 1;
    }
    assert(all.take(all.len() as int) =~= all);
    ips
}

/// An address is among those of the texts exactly when one of them denotes it.
pub proof fn law_addresses_among(texts: Seq<Seq<char>>, a: Address)
    ensures
        addresses_among(texts).contains(a) <==> exists|i: int|
            0 <= i < texts.len() && parse_address(#[trigger] texts[i]) == Some(a),
    decreases texts.len(),
{
    if texts.len() > 0 {
        let front = texts.drop_last();
        let all = addresses_among(texts);
        let some = addresses_among(front);
        law_addresses_among(front, a);
        if all.contains(a) {
            let k = choose|k: int| 0 <= k < all.len() && all[k] == a;
            if k < some.len() {
                assert(some[k] == a);
                assert(some.contains(a));
                let i = choose|i: int|
                    0 <= i < front.len() && parse_address(#[trigger] front[i]) == Some(a);
                assert(texts[i] == front[i]);
            } else {
                assert(parse_address(texts[texts.len() - 1]) == Some(a));
            }
        }
        if exists|i: int| 0 <= i < texts.len() && parse_address(#[trigger] texts[i]) == Some(a) {
            let i = choose|i: int|
                0 <= i < texts.len() && parse_address(#[trigger] texts[i]) == Some(a);
            if i < front.len() {
                assert(front[i] == texts[i]);
                let k = choose|k: int| 0 <= k < some.len() && some[k] == a;
                assert(all[k] == a);
            } else {
                assert(all[all.len() - 1] == a);
            }
        }
    }
}

} // verus!
