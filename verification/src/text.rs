//! Characters, numerals and the few string operations the rest builds on.

use vstd::prelude::*;

verus! {

/// `String::push` appends the given character to the end of the string.
pub assume_specification[ String::push ](s: &mut String, c: char)
    ensures
        final(s)@ == old(s)@.push(c),
;

// ---------------------------------------------------------------------------
// Splitting and joining
// ---------------------------------------------------------------------------

/// The predicate "is the character `sep`".
pub open spec fn is_char(sep: char) -> spec_fn(char) -> bool {
    |c: char| c == sep
}

/// The pieces of `s` between separators, in order, empty pieces included. There
/// is always one piece more than there are separators.
pub open spec fn split(s: Seq<char>, sep: spec_fn(char) -> bool) -> Seq<Seq<char>>
    decreases s.len(),
{
    if s.len() == 0 {
        seq![Seq::<char>::empty()]
    } else {
        let front = split(s.drop_last(), sep);
        if sep(s.last()) {
            front.push(Seq::<char>::empty())
        } else {
            front.drop_last().push(front.last().push(s.last()))
        }
    }
}

/// The pieces put together again, with `sep` between neighbours.
pub open spec fn join(pieces: Seq<Seq<char>>, sep: char) -> Seq<char>
    decreases pieces.len(),
{
    if pieces.len() == 0 {
        Seq::<char>::empty()
    } else if pieces.len() == 1 {
        pieces[0]
    } else {
        join(pieces.drop_last(), sep).push(sep) + pieces.last()
    }
}

/// No character of `s` is `c`.
pub open spec fn lacks(s: Seq<char>, c: char) -> bool {
    forall|i: int| 0 <= i < s.len() ==> s[i] != c
}

/// The views of a vector of character vectors.
pub open spec fn views(pieces: Seq<Vec<char>>) -> Seq<Seq<char>> {
    Seq::new(pieces.len(), |i: int| pieces[i]@)
}

pub proof fn lemma_split_nonempty(s: Seq<char>, sep: spec_fn(char) -> bool)
    ensures
        split(s, sep).len() >= 1,
    decreases s.len(),
{
    if s.len() > 0 {
        lemma_split_nonempty(s.drop_last(), sep);
    }
}

/// Text without a separator is a single piece.
pub proof fn lemma_split_lacking(s: Seq<char>, sep: char)
    requires
        lacks(s, sep),
    ensures
        split(s, is_char(sep)) == seq![s],
    decreases s.len(),
{
    if s.len() == 0 {
        assert(s =~= Seq::<char>::empty());
    } else {
        lemma_split_lacking(s.drop_last(), sep);
        assert(s.drop_last().push(s.last()) =~= s);
        assert(seq![s.drop_last()].drop_last().push(s) =~= seq![s]);
    }
}

/// Splitting `a`, a separator and `b` is splitting `a` and splitting `b`.
pub proof fn lemma_split_concat(a: Seq<char>, sep: char, b: Seq<char>)
    ensures
        split(a.push(sep) + b, is_char(sep)) == split(a, is_char(sep)) + split(b, is_char(sep)),
    decreases b.len(),
{
    let p = is_char(sep);
    let s = a.push(sep) + b;
    if b.len() == 0 {
        assert(s =~= a.push(sep));
        assert(s.drop_last() =~= a);
        assert(split(a, p).push(b) =~= split(a, p) + seq![b]);
        assert(b =~= Seq::<char>::empty());
    } else {
        lemma_split_concat(a, sep, b.drop_last());
        lemma_split_nonempty(b.drop_last(), p);
        assert(s.drop_last() =~= a.push(sep) + b.drop_last());
        assert(s.last() == b.last());
        let front = split(s.drop_last(), p);
        let back = split(b.drop_last(), p);
        assert(front.last() == back.last());
        assert(front.drop_last() =~= split(a, p) + back.drop_last());
        assert(split(s, p) =~= split(a, p) + split(b, p));
    }
}

/// Splitting `a`, a separator and `b`, where `b` holds no separator, is
/// splitting `a` and appending `b`.
pub proof fn lemma_split_append(a: Seq<char>, sep: char, b: Seq<char>)
    requires
        lacks(b, sep),
    ensures
        split(a.push(sep) + b, is_char(sep)) == split(a, is_char(sep)).push(b),
{
    lemma_split_concat(a, sep, b);
    lemma_split_lacking(b, sep);
}

/// Splitting undoes joining.
pub proof fn lemma_split_join(pieces: Seq<Seq<char>>, sep: char)
    requires
        pieces.len() >= 1,
        forall|i: int| 0 <= i < pieces.len() ==> lacks(#[trigger] pieces[i], sep),
    ensures
        split(join(pieces, sep), is_char(sep)) == pieces,
    decreases pieces.len(),
{
    if pieces.len() == 1 {
        lemma_split_lacking(pieces[0], sep);
        assert(seq![pieces[0]] =~= pieces);
    } else {
        let front = pieces.drop_last();
        assert forall|i: int| 0 <= i < front.len() implies lacks(#[trigger] front[i], sep) by {
            assert(front[i] == pieces[i]);
        }
        lemma_split_join(front, sep);
        lemma_split_append(join(front, sep), sep, pieces.last());
        assert(front.push(pieces.last()) =~= pieces);
    }
}

/// Every character that is not a separator lies in one of the pieces.
pub proof fn lemma_split_covers(s: Seq<char>, sep: spec_fn(char) -> bool, k: int)
    requires
        0 <= k < s.len(),
        !sep(s[k]),
    ensures
        exists|i: int, j: int|
            0 <= i < split(s, sep).len() && 0 <= j < split(s, sep)[i].len() && #[trigger] split(
                s,
                sep,
            )[i][j] == s[k],
    decreases s.len(),
{
    let front = split(s.drop_last(), sep);
    let all = split(s, sep);
    lemma_split_nonempty(s.drop_last(), sep);
    if k == s.len() - 1 {
        let i = all.len() - 1;
        let j = all[i].len() - 1;
        assert(all[i][j] == s[k]);
    } else {
        lemma_split_covers(s.drop_last(), sep, k);
        let (i, j) = choose|i: int, j: int|
            0 <= i < front.len() && 0 <= j < front[i].len() && #[trigger] front[i][j]
                == s.drop_last()[k];
        assert(all[i][j] == s[k]);
    }
}

/// The characters of `s`, one by one.
pub fn chars_of(s: &str) -> (r: Vec<char>)
    ensures
        r@ == s@,
{
    let mut r: Vec<char> = Vec::new();
    for c in it: s.chars()
        invariant
            it.seq() == s@,
            r@ == s@.take(it.index() as int),
    {
        r.push(c);
        assert(s@.take(it.index() as int + 1) =~= s@.take(it.index() as int).push(c));
    }
    assert(s@.take(s@.len() as int) =~= s@);
    r
}

/// Unicode white space: the characters with the property `White_Space`.
pub open spec fn is_white_space(c: char) -> bool {
    ||| '\u{9}' <= c <= '\u{d}'
    ||| c == ' '
    ||| c == '\u{85}'
    ||| c == '\u{a0}'
    ||| c == '\u{1680}'
    ||| '\u{2000}' <= c <= '\u{200a}'
    ||| c == '\u{2028}'
    ||| c == '\u{2029}'
    ||| c == '\u{202f}'
    ||| c == '\u{205f}'
    ||| c == '\u{3000}'
}

/// A decimal digit of any script: the characters of Unicode's general category
/// `Decimal_Number`, as of version 16.
pub open spec fn is_decimal_digit(c: char) -> bool {
    ||| '0' <= c <= '9'
    ||| '\u{660}' <= c <= '\u{669}'
    ||| '\u{6f0}' <= c <= '\u{6f9}'
    ||| '\u{7c0}' <= c <= '\u{7c9}'
    ||| '\u{966}' <= c <= '\u{96f}'
    ||| '\u{9e6}' <= c <= '\u{9ef}'
    ||| '\u{a66}' <= c <= '\u{a6f}'
    ||| '\u{ae6}' <= c <= '\u{aef}'
    ||| '\u{b66}' <= c <= '\u{b6f}'
    ||| '\u{be6}' <= c <= '\u{bef}'
    ||| '\u{c66}' <= c <= '\u{c6f}'
    ||| '\u{ce6}' <= c <= '\u{cef}'
    ||| '\u{d66}' <= c <= '\u{d6f}'
    ||| '\u{de6}' <= c <= '\u{def}'
    ||| '\u{e50}' <= c <= '\u{e59}'
    ||| '\u{ed0}' <= c <= '\u{ed9}'
    ||| '\u{f20}' <= c <= '\u{f29}'
    ||| '\u{1040}' <= c <= '\u{1049}'
    ||| '\u{1090}' <= c <= '\u{1099}'
    ||| '\u{17e0}' <= c <= '\u{17e9}'
    ||| '\u{1810}' <= c <= '\u{1819}'
    ||| '\u{1946}' <= c <= '\u{194f}'
    ||| '\u{19d0}' <= c <= '\u{19d9}'
    ||| '\u{1a80}' <= c <= '\u{1a89}'
    ||| '\u{1a90}' <= c <= '\u{1a99}'
    ||| '\u{1b50}' <= c <= '\u{1b59}'
    ||| '\u{1bb0}' <= c <= '\u{1bb9}'
    ||| '\u{1c40}' <= c <= '\u{1c49}'
    ||| '\u{1c50}' <= c <= '\u{1c59}'
    ||| '\u{a620}' <= c <= '\u{a629}'
    ||| '\u{a8d0}' <= c <= '\u{a8d9}'
    ||| '\u{a900}' <= c <= '\u{a909}'
    ||| '\u{a9d0}' <= c <= '\u{a9d9}'
    ||| '\u{a9f0}' <= c <= '\u{a9f9}'
    ||| '\u{aa50}' <= c <= '\u{aa59}'
    ||| '\u{abf0}' <= c <= '\u{abf9}'
    ||| '\u{ff10}' <= c <= '\u{ff19}'
    ||| '\u{104a0}' <= c <= '\u{104a9}'
    ||| '\u{10d30}' <= c <= '\u{10d39}'
    ||| '\u{10d40}' <= c <= '\u{10d49}'
    ||| '\u{11066}' <= c <= '\u{1106f}'
    ||| '\u{110f0}' <= c <= '\u{110f9}'
    ||| '\u{11136}' <= c <= '\u{1113f}'
    ||| '\u{111d0}' <= c <= '\u{111d9}'
    ||| '\u{112f0}' <= c <= '\u{112f9}'
    ||| '\u{11450}' <= c <= '\u{11459}'
    ||| '\u{114d0}' <= c <= '\u{114d9}'
    ||| '\u{11650}' <= c <= '\u{11659}'
    ||| '\u{116c0}' <= c <= '\u{116c9}'
    ||| '\u{116d0}' <= c <= '\u{116e3}'
    ||| '\u{11730}' <= c <= '\u{11739}'
    ||| '\u{118e0}' <= c <= '\u{118e9}'
    ||| '\u{11950}' <= c <= '\u{11959}'
    ||| '\u{11bf0}' <= c <= '\u{11bf9}'
    ||| '\u{11c50}' <= c <= '\u{11c59}'
    ||| '\u{11d50}' <= c <= '\u{11d59}'
    ||| '\u{11da0}' <= c <= '\u{11da9}'
    ||| '\u{11f50}' <= c <= '\u{11f59}'
    ||| '\u{16130}' <= c <= '\u{16139}'
    ||| '\u{16a60}' <= c <= '\u{16a69}'
    ||| '\u{16ac0}' <= c <= '\u{16ac9}'
    ||| '\u{16b50}' <= c <= '\u{16b59}'
    ||| '\u{16d70}' <= c <= '\u{16d79}'
    ||| '\u{1ccf0}' <= c <= '\u{1ccf9}'
    ||| '\u{1d7ce}' <= c <= '\u{1d7ff}'
    ||| '\u{1e140}' <= c <= '\u{1e149}'
    ||| '\u{1e2f0}' <= c <= '\u{1e2f9}'
    ||| '\u{1e4f0}' <= c <= '\u{1e4f9}'
    ||| '\u{1e5f1}' <= c <= '\u{1e5fa}'
    ||| '\u{1e950}' <= c <= '\u{1e959}'
    ||| '\u{1fbf0}' <= c <= '\u{1fbf9}'
}

/// Where a text is taken apart.
pub enum Separator {
    /// At one character.
    Only(char),
    /// At commas, braces and white space, as between the elements of a listed
    /// nftables set.
    Listing,
}

impl Separator {
    pub open spec fn pred(self) -> spec_fn(char) -> bool {
        match self {
            Separator::Only(sep) => is_char(sep),
            Separator::Listing => |c: char|
                c == ',' || c == '{' || c == '}' || is_white_space(c),
        }
    }

    fn holds(&self, c: char) -> (r: bool)
        ensures
            r == (self.pred())(c),
    {
        match self {
            Separator::Only(sep) => c == *sep,
            Separator::Listing => {
                c == ',' || c == '{' || c == '}' || ('\u{9}' <= c && c <= '\u{d}') || c == ' ' || c
                    == '\u{85}' || c == '\u{a0}' || c == '\u{1680}' || ('\u{2000}' <= c && c
                    <= '\u{200a}') || c == '\u{2028}' || c == '\u{2029}' || c == '\u{202f}' || c
                    == '\u{205f}' || c == '\u{3000}'
            },
        }
    }

    /// The pieces of `s` between separators.
    pub fn split(&self, s: &Vec<char>) -> (r: Vec<Vec<char>>)
        ensures
            views(r@) == split(s@, self.pred()),
    {
        let mut r: Vec<Vec<char>> = Vec::new();
        let mut cur: Vec<char> = Vec::new();
        let mut i: usize = 0;
        assert(s@.take(0) =~= Seq::<char>::empty());
        assert(views(r@).push(cur@) =~= seq![Seq::<char>::empty()]);
        while i < s.len()
            invariant
                i <= s.len(),
                split(s@.take(i as int), self.pred()) == views(r@).push(cur@),
            decreases s.len() - i,
        {
            let c: char = s[i];
            let ghost before = views(r@).push(cur@);
            assert(s@.take(i as int + 1).drop_last() =~= s@.take(i as int));
            assert(before.drop_last() =~= views(r@));
            if self.holds(c) {
                let ghost old_r = r@;
                let ghost piece = cur@;
                r.push(cur);
                cur = Vec::new();
                assert(views(r@) =~= views(old_r).push(piece));
                assert(cur@ =~= Seq::<char>::empty());
            } else {
                cur.push(c);
            }
            i += 1;
        }
        assert(s@.take(s@.len() as int) =~= s@);
        let ghost old_r = r@;
        let ghost piece = cur@;
        r.push(cur);
        assert(views(r@) =~= views(old_r).push(piece));
        r
    }
}

// ---------------------------------------------------------------------------
// Searching
// ---------------------------------------------------------------------------

/// `needle` occurs in `s`.
pub open spec fn occurs(needle: Seq<char>, s: Seq<char>) -> bool {
    exists|i: int| #[trigger] occurs_at(needle, s, i)
}

/// `needle` stands in `s` from position `i` on.
pub open spec fn occurs_at(needle: Seq<char>, s: Seq<char>, i: int) -> bool {
    0 <= i && i + needle.len() <= s.len() && s.subrange(i, i + needle.len()) == needle
}

/// Whether `word` occurs in `text`.
pub fn contains(text: &str, word: &str) -> (r: bool)
    ensures
        r == occurs(word@, text@),
{
    let s: Vec<char> = chars_of(text);
    let needle: Vec<char> = chars_of(word);
    if needle.len() == 0 {
        assert(s@.subrange(0, 0) =~= needle@);
        assert(occurs_at(needle@, s@, 0));
        return true;
    }
    if needle.len() > s.len() {
        return false;
    }
    let last: usize = s.len() - needle.len();
    let mut i: usize = 0;
    while i <= last
        invariant
            s@ == text@,
            needle@ == word@,
            last + needle@.len() == s.len(),
            needle@.len() > 0,
            i <= last + 1,
            forall|k: int| 0 <= k < i ==> !#[trigger] occurs_at(needle@, s@, k),
        decreases last + 1 - i,
    {
        let mut j: usize = 0;
        while j < needle.len() && s[i + j] == needle[j]
            invariant
                last + needle@.len() == s.len(),
                i <= last,
                j <= needle@.len(),
                forall|k: int| 0 <= k < j ==> s@[i + k] == #[trigger] needle@[k],
            decreases needle.len() - j,
        {
            j += 1;
        }
        if j == needle.len() {
            assert(s@.subrange(i as int, i + needle@.len()) =~= needle@);
            assert(occurs_at(needle@, s@, i as int));
            return true;
        }
        assert(!occurs_at(needle@, s@, i as int)) by {
            if occurs_at(needle@, s@, i as int) {
                assert(s@.subrange(i as int, i + needle@.len())[j as int] == needle@[j as int]);
            }
        }
        i += 1;
    }
    false
}

// ---------------------------------------------------------------------------
// Numerals
// ---------------------------------------------------------------------------

/// The character that stands for the digit `d`: `0` to `9`, then `a` to `f`.
pub open spec fn digit_char(d: int) -> char {
    if d < 10 {
        (48 + d) as char
    } else {
        (87 + d) as char
    }
}

/// What the character `c` is worth as a digit, in either case; `None` if it is
/// no hexadecimal digit.
pub open spec fn digit_value(c: char) -> Option<int> {
    if '0' <= c <= '9' {
        Some(c as int - 48)
    } else if 'a' <= c <= 'f' {
        Some(c as int - 87)
    } else if 'A' <= c <= 'F' {
        Some(c as int - 55)
    } else {
        None
    }
}

/// The numeral of `n` in the given base, without leading zeros.
pub open spec fn digits(n: nat, base: nat) -> Seq<char>
    decreases n,
{
    if base < 2 || n < base {
        seq![digit_char(n as int)]
    } else {
        proof {
            assert(n / base < n) by (nonlinear_arith)
                requires
                    2 <= base <= n,
            ;
        }
        digits(n / base, base).push(digit_char((n % base) as int))
    }
}

/// The decimal numeral of `n`.
pub open spec fn dec(n: nat) -> Seq<char> {
    digits(n, 10)
}

/// `c` is a digit of the given base.
pub open spec fn is_digit(c: char, base: nat) -> bool {
    digit_value(c) is Some && digit_value(c)->0 < base
}

/// One or more digits of the given base, and nothing else.
pub open spec fn is_numeral(s: Seq<char>, base: nat) -> bool {
    s.len() >= 1 && forall|i: int| 0 <= i < s.len() ==> is_digit(#[trigger] s[i], base)
}

/// The number that a numeral denotes.
pub open spec fn value(s: Seq<char>, base: nat) -> int
    decreases s.len(),
{
    if s.len() == 0 {
        0
    } else {
        value(s.drop_last(), base) * base + digit_value(s.last())->0
    }
}

/// A numeral of up to four digits, in a base up to sixteen, fits sixteen bits.
pub proof fn lemma_value_bound(s: Seq<char>, base: nat)
    requires
        base <= 16,
        s.len() <= 4,
        forall|i: int| 0 <= i < s.len() ==> is_digit(#[trigger] s[i], base),
    ensures
        0 <= value(s, base),
        s.len() == 0 ==> value(s, base) < 1,
        s.len() == 1 ==> value(s, base) < 16,
        s.len() == 2 ==> value(s, base) < 256,
        s.len() == 3 ==> value(s, base) < 4096,
        s.len() == 4 ==> value(s, base) < 65536,
    decreases s.len(),
{
    if s.len() > 0 {
        lemma_value_bound(s.drop_last(), base);
        let v = value(s.drop_last(), base);
        assert(is_digit(s.last(), base));
        assert(0 <= v * base <= v * 16) by (nonlinear_arith)
            requires
                0 <= v,
                0 <= base <= 16,
        ;
    }
}

/// The numeral of `n` is a numeral, denotes `n`, and begins with `0` only if it
/// is that digit alone.
pub proof fn lemma_digits(n: nat, base: nat)
    requires
        2 <= base <= 16,
    ensures
        is_numeral(digits(n, base), base),
        value(digits(n, base), base) == n,
        n > 0 ==> digits(n, base)[0] != '0',
        n < base ==> digits(n, base).len() == 1,
        n >= base ==> digits(n, base).len() == digits(n / base, base).len() + 1,
    decreases n,
{
    let s = digits(n, base);
    if n < base {
        assert(s.drop_last() =~= Seq::<char>::empty());
        assert(value(s.drop_last(), base) == 0);
        assert(value(s.drop_last(), base) * base == 0) by (nonlinear_arith)
            requires
                value(s.drop_last(), base) == 0,
        ;
    } else {
        assert(n / base < n && n / base >= 1 && n % base < base) by (nonlinear_arith)
            requires
                2 <= base,
                n >= base,
        ;
        lemma_digits(n / base, base);
        assert(s.drop_last() =~= digits(n / base, base));
        assert((n / base) * base + n % base == n) by (nonlinear_arith)
            requires
                2 <= base,
        ;
    }
}

/// How long the numerals of small numbers are.
pub proof fn lemma_digits_len(n: nat)
    ensures
        n < 256 ==> digits(n, 10).len() <= 3,
        n < 10 ==> digits(n, 10).len() == 1,
        10 <= n ==> digits(n, 10).len() > 1,
        n < 65536 ==> digits(n, 16).len() <= 4,
{
    lemma_digits(n, 10);
    lemma_digits(n / 10, 10);
    lemma_digits(n / 10 / 10, 10);
    lemma_digits(n, 16);
    lemma_digits(n / 16, 16);
    lemma_digits(n / 16 / 16, 16);
    lemma_digits(n / 16 / 16 / 16, 16);
}

/// A character that is no digit occurs in no numeral.
pub proof fn lemma_numeral_lacks(s: Seq<char>, base: nat, c: char)
    requires
        is_numeral(s, base),
        !is_digit(c, base),
    ensures
        lacks(s, c),
{
    assert forall|i: int| 0 <= i < s.len() implies s[i] != c by {
        assert(is_digit(s[i], base));
    }
}

/// Appends the numeral of `n` in the given base.
pub fn push_digits(out: &mut String, n: u64, base: u64)
    requires
        2 <= base <= 16,
    ensures
        final(out)@ == old(out)@ + digits(n as nat, base as nat),
    decreases n,
{
    let low: u64 = n % base;
    if n >= base {
        assert(n / base < n) by (nonlinear_arith)
            requires
                2 <= base,
                n >= base,
        ;
        push_digits(out, n / base, base);
    }
    let d: u8 = low as u8;
    if d < 10 {
        out.push((48 + d) as char);
    } else {
        out.push((87 + d) as char);
    }
    proof {
        if n < base {
            assert(n % base == n) by (nonlinear_arith)
                requires
                    n < base,
            ;
        }
        assert(out@ =~= old(out)@ + digits(n as nat, base as nat));
    }
}

/// Appends the decimal numeral of `n`.
pub fn push_dec(out: &mut String, n: u64)
    ensures
        final(out)@ == old(out)@ + dec(n as nat),
{
    push_digits(out, n, 10);
}

/// Reads a numeral of at most `max` digits; `None` for anything else.
pub fn read_numeral(s: &Vec<char>, base: u32, max: usize) -> (r: Option<u32>)
    requires
        2 <= base <= 16,
        max <= 4,
    ensures
        r is Some <==> is_numeral(s@, base as nat) && s@.len() <= max,
        r is Some ==> r->0 == value(s@, base as nat) && r->0 < 65536,
{
    if s.len() == 0 || s.len() > max {
        return None;
    }
    let mut v: u32 = 0;
    let mut i: usize = 0;
    while i < s.len()
        invariant
            2 <= base <= 16,
            s.len() <= max <= 4,
            i <= s.len(),
            forall|k: int| 0 <= k < i ==> is_digit(#[trigger] s@[k], base as nat),
            v == value(s@.take(i as int), base as nat),
        decreases s.len() - i,
    {
        let c: char = s[i];
        let ghost front = s@.take(i as int);
        assert(s@.take(i as int + 1).drop_last() =~= front);
        proof {
            assert forall|k: int| 0 <= k < front.len() implies is_digit(
                #[trigger] front[k],
                base as nat,
            ) by {
                assert(front[k] == s@[k]);
            }
            lemma_value_bound(front, base as nat);
        }
        let d: u32 = if '0' <= c && c <= '9' {
            c as u32 - 48
        } else if 'a' <= c && c <= 'f' {
            c as u32 - 87
        } else if 'A' <= c && c <= 'F' {
            c as u32 - 55
        } else {
            16
        };
        if d >= base {
            assert(!is_digit(s@[i as int], base as nat));
            return None;
        }
        assert(v * base <= v * 16) by (nonlinear_arith)
            requires
                base <= 16,
        ;
        v = v * base + d;
        i += 1;
    }
    assert(s@.take(s@.len() as int) =~= s@);
    proof {
        lemma_value_bound(s@, base as nat);
    }
    Some(v)
}

} // verus!
