//! What splitting, joining, searching and numerals amount to.

use vstd::prelude::*;

use crate::text::{
    dec, digit_value, digits, is_char, is_decimal_digit, is_digit, is_numeral, is_white_space, join, lacks,
    lemma_digits, lemma_split_nonempty, occurs, occurs_at, split, value, views, Separator,
};

verus! {

// ---------------------------------------------------------------------------
// Splitting and joining
// ---------------------------------------------------------------------------

/// A text that holds no separator is a single piece.
pub proof fn law_split_without_separator(s: Seq<char>, sep: spec_fn(char) -> bool)
    requires
        forall|i: int| 0 <= i < s.len() ==> !sep(#[trigger] s[i]),
    ensures
        split(s, sep) == seq![s],
    decreases s.len(),
{
    if s.len() == 0 {
        assert(s =~= Seq::<char>::empty());
    } else {
        assert(!sep(s[s.len() - 1]));
        law_split_without_separator(s.drop_last(), sep);
        assert(s.drop_last().push(s.last()) =~= s);
        assert(seq![s.drop_last()].drop_last().push(s) =~= seq![s]);
    }
}

/// At every separator a text falls into what stands before it and what stands after
/// it.
pub proof fn law_split_at_separator(
    a: Seq<char>,
    c: char,
    b: Seq<char>,
    sep: spec_fn(char) -> bool,
)
    requires
        sep(c),
    ensures
        split(a + seq![c] + b, sep) == split(a, sep) + split(b, sep),
    decreases b.len(),
{
    let s = a + seq![c] + b;
    if b.len() == 0 {
        assert(s.drop_last() =~= a);
        assert(s.last() == c);
        assert(split(s, sep) =~= split(a, sep) + split(b, sep));
    } else {
        law_split_at_separator(a, c, b.drop_last(), sep);
        lemma_split_nonempty(b.drop_last(), sep);
        assert(s.drop_last() =~= a + seq![c] + b.drop_last());
        assert(s.last() == b.last());
        let front = split(s.drop_last(), sep);
        let back = split(b.drop_last(), sep);
        assert(front.last() == back.last());
        assert(front.drop_last() =~= split(a, sep) + back.drop_last());
        assert(split(s, sep) =~= split(a, sep) + split(b, sep));
    }
}

/// Where a text is taken apart: at one given character, or at a comma, a brace or
/// white space.
pub proof fn law_separators(sep: char, c: char)
    ensures
        (Separator::Only(sep).pred())(c) <==> c == sep,
        is_char(sep)(c) <==> c == sep,
        (Separator::Listing.pred())(c) <==> seq![',', '{', '}'].contains(c) || is_white_space(c),
{
    let marks: Seq<char> = seq![',', '{', '}'];
    assert(marks[0] == ',' && marks[1] == '{' && marks[2] == '}');
    assert(marks.contains(',') && marks.contains('{') && marks.contains('}'));
}

/// The code points of white space: tab to carriage return, space, next line, no-break
/// space, and the spaces and line breaks beyond Latin.
pub proof fn law_white_space(c: char)
    ensures
        is_white_space(c) <==> {
            let n = c as int;
            if n < 0x80 {
                n == 32 || 9 <= n < 14
            } else if n < 0x2000 {
                n == 0x85 || n == 0xa0 || n == 0x1680
            } else {
                n < 0x200b || n == 0x2028 || n == 0x2029 || n == 0x202f || n == 0x205f || n
                    == 0x3000
            }
        },
{
}

/// Joining puts the separator between neighbours, and nowhere else.
pub proof fn law_join(pieces: Seq<Seq<char>>, piece: Seq<char>, sep: char)
    ensures
        join(Seq::<Seq<char>>::empty(), sep).len() == 0,
        join(seq![piece], sep) == piece,
        pieces.len() > 0 ==> join(pieces.push(piece), sep) == join(pieces, sep) + seq![sep] + piece,
{
    let all = pieces.push(piece);
    assert(all.drop_last() =~= pieces);
    if pieces.len() > 0 {
        assert(join(all, sep) =~= join(pieces, sep) + seq![sep] + piece);
    }
}

/// Vectors of characters are viewed one by one.
pub proof fn law_views(pieces: Seq<Vec<char>>, i: int)
    ensures
        views(pieces).len() == pieces.len(),
        0 <= i < pieces.len() ==> views(pieces)[i] == pieces[i]@,
{
}

/// A text lacks a character exactly if it does not contain it.
pub proof fn law_lacks(s: Seq<char>, c: char)
    ensures
        lacks(s, c) <==> !s.contains(c),
{
    if lacks(s, c) && s.contains(c) {
        let i = choose|i: int| 0 <= i < s.len() && s[i] == c;
        assert(s[i] != c);
    }
    if !s.contains(c) {
        assert forall|i: int| 0 <= i < s.len() implies s[i] != c by {
            if s[i] == c {
                assert(s.contains(c));
            }
        }
    }
}

// ---------------------------------------------------------------------------
// Searching
// ---------------------------------------------------------------------------

/// A word occurs in whatever it is written into, and where it is written.
pub proof fn law_written_word_occurs(a: Seq<char>, word: Seq<char>, b: Seq<char>)
    ensures
        occurs(word, a + word + b),
        occurs_at(word, a + word + b, a.len() as int),
{
    assert((a + word + b).subrange(a.len() as int, a.len() as int + word.len()) =~= word);
    assert(occurs_at(word, a + word + b, a.len() as int));
}

/// A word that occurs stands between what comes before it and what comes after it.
pub proof fn law_word_that_occurs_is_written(word: Seq<char>, s: Seq<char>, at: int)
    ensures
        occurs_at(word, s, at) ==> 0 <= at && at + word.len() <= s.len() && s == s.take(at) + word
            + s.skip(at + word.len()),
        occurs(word, s) ==> exists|i: int| #[trigger] occurs_at(word, s, i),
{
    if occurs_at(word, s, at) {
        assert(s =~= s.take(at) + s.subrange(at, at + word.len()) + s.skip(at + word.len()));
    }
}

// ---------------------------------------------------------------------------
// Numerals
// ---------------------------------------------------------------------------

/// The digits, in either case, in order of their worth.
pub proof fn law_digits_in_order(c: char)
    ensures
        '0' <= c <= '9' ==> digit_value(c) == Some(c as int - '0' as int),
        'a' <= c <= 'f' ==> digit_value(c) == Some(10 + (c as int - 'a' as int)),
        'A' <= c <= 'F' ==> digit_value(c) == Some(10 + (c as int - 'A' as int)),
        digit_value(c) is Some <==> '0' <= c <= '9' || 'a' <= c <= 'f' || 'A' <= c <= 'F',
        is_digit(c, 10) <==> '0' <= c <= '9',
        is_digit(c, 16) <==> '0' <= c <= '9' || 'a' <= c <= 'f' || 'A' <= c <= 'F',
        '0' <= c <= '9' ==> is_decimal_digit(c),
        is_decimal_digit(c) && c as int <= 0x65f ==> '0' <= c <= '9',
{
}

/// A numeral has at least one digit and nothing else.
pub proof fn law_numeral(s: Seq<char>, base: nat)
    ensures
        is_numeral(s, base) <==> s.len() > 0 && forall|i: int|
            0 <= i < s.len() ==> is_digit(#[trigger] s[i], base),
{
}

/// What a numeral denotes: every further digit shifts what stands before it by one
/// place.
pub proof fn law_value_is_positional(s: Seq<char>, c: char, base: nat)
    requires
        is_digit(c, base),
    ensures
        value(Seq::<char>::empty(), base) == 0,
        value(s.push(c), base) == value(s, base) * base + digit_value(c)->0,
{
    assert(s.push(c).drop_last() =~= s);
}

/// A number below the base is written as one digit, in lower case. Every other one is
/// written as what is left of it without its last digit, and that digit.
pub proof fn law_digits_are_positional(n: nat, d: nat, base: nat)
    requires
        2 <= base <= 16,
        d < base,
    ensures
        digits(d, base).len() == 1,
        d < 10 ==> digits(d, base)[0] as int == '0' as int + d,
        d >= 10 ==> digits(d, base)[0] as int == 'a' as int + (d - 10),
        n > 0 ==> digits((n * base + d) as nat, base) == digits(n, base) + digits(d, base),
{
    if n > 0 {
        let m = (n * base + d) as nat;
        assert(m >= base && m / base == n && m % base == d) by (nonlinear_arith)
            requires
                n > 0,
                d < base,
                2 <= base,
                m == n * base + d,
        ;
        assert(digits(m, base) =~= digits(n, base) + digits(d, base));
    }
}

/// Numbers are written in decimal.
pub proof fn law_dec(n: nat)
    ensures
        dec(n) == digits(n, 10),
        value(dec(n), 10) == n,
        is_numeral(dec(n), 10),
        dec(n)[0] == '0' ==> n == 0,
{
    lemma_digits(n, 10);
}

} // verus!
