//! What the scripts and listings of `nft` amount to.

use vstd::prelude::*;
use vstd::utf8::{decode_utf8, valid_utf8};

use crate::command::Output;
use crate::ip::{address_text, is_address_char, law_addresses_among, parse_address, Address};
use crate::ip_laws::{
    law_addresses_among_in_order, law_text_characters, law_text_injective, law_text_round_trip,
};
use crate::nft::{
    ban_script, ban_secs_of, banned_in, error_text, list_command, listed, script_command, set_of,
    setup_script, text_of, unban_script, utf8_lossy, NO_SUCH_TABLE, TABLE,
};
use crate::ruleset::{
    run, run_all, step, steps, with_element, with_elements, words, Ruleset, Table,
};
use crate::setup_laws::{
    drop_rules, home, is_set_up, law_setup_changes_nothing_again, law_setup_sets_up,
    lemma_keywords_differ, lemma_named_statement, lemma_step_at_home,
};
use crate::text::{
    dec, is_digit, lacks, lemma_digits, lemma_split_concat, lemma_split_lacking, split, Separator,
};
use crate::time::Duration;

verus! {

/// An address that a listing shows, between separators, is reported as banned.
pub proof fn law_shown_address_is_listed(text: Seq<char>, i: int, a: Address)
    requires
        a.valid(),
        0 <= i < split(text, Separator::Listing.pred()).len(),
        split(text, Separator::Listing.pred())[i] == address_text(a),
    ensures
        listed(text).contains(a),
{
    law_text_round_trip(a);
    law_addresses_among(split(text, Separator::Listing.pred()), a);
}

/// Every ban has a timeout of at least a second, so that nftables lifts it by
/// itself.
pub proof fn law_ban_expires(duration: Duration)
    ensures
        ban_secs_of(duration) >= 1,
{
}

/// Where an element stands in a script.
spec fn place(a: Address) -> Seq<char> {
    TABLE@ + " "@ + set_of(a) + " { "@
}

/// Scripts that go on after the address with a space name the same address.
proof fn lemma_same_address(
    verb: Seq<char>,
    a: Address,
    b: Address,
    rest_a: Seq<char>,
    rest_b: Seq<char>,
)
    requires
        a.valid(),
        b.valid(),
        rest_a.len() > 0,
        rest_b.len() > 0,
        rest_a[0] == ' ',
        rest_b[0] == ' ',
        verb + place(a) + address_text(a) + rest_a == verb + place(b) + address_text(b) + rest_b,
    ensures
        a == b,
{
    let x = verb + place(a) + address_text(a) + rest_a;
    let y = verb + place(b) + address_text(b) + rest_b;
    reveal_strlit("blackhole");
    reveal_strlit("blackhole6");
    reveal_strlit(" { ");
    reveal_strlit(" ");
    let at = verb.len() + TABLE@.len() + 1 + 9;
    if a is V4 && b is V6 {
        assert(x[at as int] == ' ');
        assert(y[at as int] == '6');
    }
    if a is V6 && b is V4 {
        assert(x[at as int] == '6');
        assert(y[at as int] == ' ');
    }
    assert(place(a) == place(b));
    let start = (verb + place(a)).len() as int;
    let s = address_text(a);
    let t = address_text(b);
    law_text_characters(a);
    law_text_characters(b);
    if s.len() < t.len() {
        assert(x[start + s.len()] == ' ');
        assert(y[start + s.len()] == t[s.len() as int]);
        assert(is_address_char(t[s.len() as int]));
    }
    if t.len() < s.len() {
        assert(y[start + t.len()] == ' ');
        assert(x[start + t.len()] == s[t.len() as int]);
        assert(is_address_char(s[t.len() as int]));
    }
    assert forall|k: int| 0 <= k < s.len() implies s[k] == t[k] by {
        assert(x[start + k] == s[k]);
        assert(y[start + k] == t[k]);
    }
    assert(s =~= t);
    law_text_injective(a, b);
}

/// A script that bans an address bans no other one.
pub proof fn law_ban_names_one_address(a: Address, m: nat, b: Address, n: nat)
    requires
        a.valid(),
        b.valid(),
        ban_script(a, m) == ban_script(b, n),
    ensures
        a == b,
{
    reveal_strlit(" timeout ");
    let ra = " timeout "@ + dec(m) + "s }"@;
    let rb = " timeout "@ + dec(n) + "s }"@;
    assert("add element "@ + place(a) + address_text(a) + ra =~= ban_script(a, m));
    assert("add element "@ + place(b) + address_text(b) + rb =~= ban_script(b, n));
    lemma_same_address("add element "@, a, b, ra, rb);
}

/// A script that lifts the ban of an address lifts no other one.
pub proof fn law_unban_names_one_address(a: Address, b: Address)
    requires
        a.valid(),
        b.valid(),
        unban_script(a) == unban_script(b),
    ensures
        a == b,
{
    reveal_strlit(" }");
    assert("delete element "@ + place(a) + address_text(a) + " }"@ =~= unban_script(a));
    assert("delete element "@ + place(b) + address_text(b) + " }"@ =~= unban_script(b));
    lemma_same_address("delete element "@, a, b, " }"@, " }"@);
}

// ---------------------------------------------------------------------------
// What the sets hold
// ---------------------------------------------------------------------------

/// The banned addresses: each in the set of its family.
pub open spec fn bans(r: Ruleset) -> Set<Address> {
    Set::new(|a: Address| r[home()].sets[set_of(a)].elements.contains_key(a))
}

/// `r` with these elements in the set `name` of the table, and else unchanged.
pub open spec fn with_banned(r: Ruleset, name: Seq<char>, elements: Map<Address, nat>) -> Ruleset {
    r.insert(
        home(),
        Table {
            sets: with_elements(r[home()].sets, name, elements),
            chains: r[home()].chains,
        },
    )
}

/// A statement on an element of a set of the table.
spec fn element_line(head: Seq<char>, a: Address, rest: Seq<char>) -> Seq<char> {
    head + place(a) + address_text(a) + seq![' '] + rest
}

/// The words of a statement on an element: the address stands after the brace.
proof fn lemma_element_words(verb: Seq<char>, head: Seq<char>, a: Address, rest: Seq<char>)
    requires
        a.valid(),
        lacks(verb, ' '),
        head == verb.push(' ') + "element"@.push(' '),
    ensures
        words(element_line(head, a, rest)) == seq![
            verb,
            "element"@,
            "inet"@,
            "vortexwall"@,
            set_of(a),
        ] + (seq!["{"@, address_text(a)] + words(rest)),
{
    reveal_strlit("element");
    reveal_strlit("blackhole");
    reveal_strlit("blackhole6");
    reveal_strlit("{");
    reveal_strlit(" { ");
    reveal_strlit(" ");
    let text = address_text(a);
    law_text_characters(a);
    assert forall|k: int| 0 <= k < text.len() implies text[k] != ' ' by {
        assert(is_address_char(text[k]));
    }
    let args = "{"@.push(' ') + (text.push(' ') + rest);
    let tail = seq![' '] + set_of(a).push(' ') + args;
    lemma_named_statement(verb, "element"@, head, tail, set_of(a), args);
    lemma_split_concat("{"@, ' ', text.push(' ') + rest);
    lemma_split_lacking("{"@, ' ');
    lemma_split_concat(text, ' ', rest);
    lemma_split_lacking(text, ' ');
    assert(seq!["{"@] + (seq![text] + words(rest)) =~= seq!["{"@, text] + words(rest));
    assert(element_line(head, a, rest) =~= head + TABLE@ + tail);
}

/// What is put into a script after an address holds no line break.
proof fn lemma_element_line_is_line(head: Seq<char>, a: Address, rest: Seq<char>)
    requires
        a.valid(),
        lacks(head, '\n'),
        lacks(rest, '\n'),
    ensures
        lacks(element_line(head, a, rest), '\n'),
{
    reveal_strlit("inet vortexwall");
    reveal_strlit("blackhole");
    reveal_strlit("blackhole6");
    reveal_strlit(" { ");
    reveal_strlit(" ");
    let text = address_text(a);
    law_text_characters(a);
    let front = head + place(a);
    let line = element_line(head, a, rest);
    assert(lacks(place(a), '\n'));
    assert forall|k: int| 0 <= k < line.len() implies line[k] != '\n' by {
        if k < head.len() {
            assert(line[k] == head[k]);
        } else if k < front.len() {
            assert(line[k] == place(a)[k - head.len()]);
        } else if k < front.len() + text.len() {
            assert(line[k] == text[k - front.len()]);
            assert(is_address_char(text[k - front.len()]));
        } else if k > front.len() + text.len() {
            assert(line[k] == rest[k - front.len() - text.len() - 1]);
        }
    }
}

/// A script of one statement does what the statement does.
proof fn lemma_run_line(before: Ruleset, line: Seq<char>)
    requires
        lacks(line, '\n'),
    ensures
        run(before, line) == step(before, line),
{
    lemma_split_lacking(line, '\n');
    reveal_with_fuel(steps, 2);
    assert(seq![line].drop_last() =~= Seq::<Seq<char>>::empty());
}

/// The sets of the two families are distinct.
proof fn lemma_sets_differ()
    ensures
        "blackhole"@ != "blackhole6"@,
{
    reveal_strlit("blackhole");
    reveal_strlit("blackhole6");
    assert("blackhole"@.len() != "blackhole6"@.len());
}

/// The words of the script that bans an address: the address stands after the brace, and
/// after it its timeout in seconds, in whatever family.
pub proof fn law_ban_words(a: Address, n: nat)
    requires
        a.valid(),
    ensures
        words(ban_script(a, n)) == seq![
            "add"@,
            "element"@,
            "inet"@,
            "vortexwall"@,
            if a is V4 {
                "blackhole"@
            } else {
                "blackhole6"@
            },
            "{"@,
            address_text(a),
            "timeout"@,
            dec(n) + "s"@,
            "}"@,
        ],
        lacks(ban_script(a, n), '\n'),
{
    reveal_strlit("add");
    reveal_strlit("element");
    reveal_strlit("add element ");
    reveal_strlit(" timeout ");
    reveal_strlit("timeout");
    reveal_strlit("s");
    reveal_strlit("}");
    reveal_strlit("s }");
    let secs = dec(n) + "s"@;
    let rest = "timeout"@.push(' ') + (secs.push(' ') + "}"@);
    let line = element_line("add element "@, a, rest);
    assert(ban_script(a, n) =~= line);
    lemma_digits(n, 10);
    assert forall|k: int| 0 <= k < secs.len() implies secs[k] != '\n' && secs[k] != ' ' by {
        if k < dec(n).len() {
            assert(secs[k] == dec(n)[k]);
            assert(is_digit(dec(n)[k], 10));
        }
    }
    assert forall|k: int| 0 <= k < rest.len() implies rest[k] != '\n' by {
        if 8 <= k < 8 + secs.len() {
            assert(rest[k] == secs[k - 8]);
        }
    }
    lemma_element_line_is_line("add element "@, a, rest);
    assert("add element "@ =~= "add"@.push(' ') + "element"@.push(' '));
    lemma_element_words("add"@, "add element "@, a, rest);
    lemma_split_concat("timeout"@, ' ', secs.push(' ') + "}"@);
    lemma_split_lacking("timeout"@, ' ');
    lemma_split_concat(secs, ' ', "}"@);
    lemma_split_lacking(secs, ' ');
    lemma_split_lacking("}"@, ' ');
    assert(words(ban_script(a, n)) =~= seq![
        "add"@,
        "element"@,
        "inet"@,
        "vortexwall"@,
        set_of(a),
        "{"@,
        address_text(a),
        "timeout"@,
        secs,
        "}"@,
    ]);
}

/// The words of the script that lifts the ban of an address.
pub proof fn law_unban_words(a: Address)
    requires
        a.valid(),
    ensures
        words(unban_script(a)) == seq![
            "delete"@,
            "element"@,
            "inet"@,
            "vortexwall"@,
            if a is V4 {
                "blackhole"@
            } else {
                "blackhole6"@
            },
            "{"@,
            address_text(a),
            "}"@,
        ],
        lacks(unban_script(a), '\n'),
{
    reveal_strlit("delete");
    reveal_strlit("element");
    reveal_strlit("delete element ");
    reveal_strlit(" }");
    reveal_strlit("}");
    let line = element_line("delete element "@, a, "}"@);
    assert(unban_script(a) =~= line);
    lemma_element_line_is_line("delete element "@, a, "}"@);
    assert("delete element "@ =~= "delete"@.push(' ') + "element"@.push(' '));
    lemma_element_words("delete"@, "delete element "@, a, "}"@);
    lemma_split_lacking("}"@, ' ');
    assert(words(unban_script(a)) =~= seq![
        "delete"@,
        "element"@,
        "inet"@,
        "vortexwall"@,
        set_of(a),
        "{"@,
        address_text(a),
        "}"@,
    ]);
}

/// Banning an address adds it to the bans. No other ban, no rule and no other table is
/// touched. Where the address was not banned, it is now, for as many seconds as asked for.
pub proof fn law_ban_adds_one_address(a: Address, n: nat, before: Ruleset)
    requires
        a.valid(),
        is_set_up(before),
    ensures
        run(before, ban_script(a, n)) == with_banned(
            before,
            set_of(a),
            with_element(before[home()].sets[set_of(a)].elements, a, n),
        ),
        bans(run(before, ban_script(a, n))) == bans(before).insert(a),
        !bans(before).contains(a) ==> run(before, ban_script(a, n))[home()].sets[if a is V4 {
            "blackhole"@
        } else {
            "blackhole6"@
        }].elements[a] == n,
        is_set_up(run(before, ban_script(a, n))),
{
    law_ban_words(a, n);
    let line = ban_script(a, n);
    lemma_run_line(before, line);
    lemma_keywords_differ();
    let args = seq!["{"@, address_text(a), "timeout"@, dec(n) + "s"@, "}"@];
    assert(words(line) =~= seq!["add"@, "element"@, "inet"@, "vortexwall"@, set_of(a)] + args);
    lemma_step_at_home(before, line, "add"@, "element"@, set_of(a), args);
    let all = seq![set_of(a)] + args;
    assert(all[2] == address_text(a) && all[3] == "timeout"@ && all[4] == dec(n) + "s"@);
    reveal_strlit("s");
    assert((dec(n) + "s"@).drop_last() =~= dec(n));
    lemma_digits(n, 10);
    law_text_round_trip(a);
    lemma_sets_differ();
    assert(bans(run(before, ban_script(a, n))) =~= bans(before).insert(a));
}

/// Lifting the ban of an address takes it off the bans. No other ban, no rule and no
/// other table is touched.
pub proof fn law_unban_removes_one_address(a: Address, before: Ruleset)
    requires
        a.valid(),
        is_set_up(before),
    ensures
        run(before, unban_script(a)) == with_banned(
            before,
            set_of(a),
            before[home()].sets[set_of(a)].elements.remove(a),
        ),
        bans(run(before, unban_script(a))) == bans(before).remove(a),
        is_set_up(run(before, unban_script(a))),
{
    law_unban_words(a);
    let line = unban_script(a);
    lemma_run_line(before, line);
    lemma_keywords_differ();
    let args = seq!["{"@, address_text(a), "}"@];
    assert(words(line) =~= seq!["delete"@, "element"@, "inet"@, "vortexwall"@, set_of(a)] + args);
    lemma_step_at_home(before, line, "delete"@, "element"@, set_of(a), args);
    assert((seq![set_of(a)] + args)[2] == address_text(a));
    law_text_round_trip(a);
    lemma_sets_differ();
    assert(bans(run(before, unban_script(a))) =~= bans(before).remove(a));
}

/// Lifting a ban undoes it: everything is as before, every other ban included.
pub proof fn law_unban_undoes_ban(a: Address, n: nat, before: Ruleset)
    requires
        a.valid(),
        is_set_up(before),
        !bans(before).contains(a),
    ensures
        bans(run(before, ban_script(a, n))).contains(a),
        run(run(before, ban_script(a, n)), unban_script(a)) == before,
{
    law_ban_adds_one_address(a, n, before);
    let banned = run(before, ban_script(a, n));
    law_unban_removes_one_address(a, banned);
    let elements = before[home()].sets[set_of(a)].elements;
    assert(elements.insert(a, n).remove(a) =~= elements);
    let sets = with_elements(banned[home()].sets, set_of(a), elements);
    assert(sets =~= before[home()].sets);
    assert(run(banned, unban_script(a)) =~= before);
}

/// `script` bans an address or lifts a ban.
pub open spec fn is_ban_or_unban(script: Seq<char>) -> bool {
    ||| exists|a: Address, n: nat| a.valid() && script == #[trigger] ban_script(a, n)
    ||| exists|a: Address| a.valid() && script == #[trigger] unban_script(a)
}

/// Once the table is set up, it stays so whatever is banned and lifted.
pub proof fn law_bans_keep_the_setup(before: Ruleset, scripts: Seq<Seq<char>>)
    requires
        is_set_up(before),
        forall|i: int| 0 <= i < scripts.len() ==> is_ban_or_unban(#[trigger] scripts[i]),
    ensures
        is_set_up(run_all(before, scripts)),
    decreases scripts.len(),
{
    if scripts.len() > 0 {
        let front = scripts.drop_last();
        assert forall|i: int| 0 <= i < front.len() implies is_ban_or_unban(#[trigger] front[i]) by {
            assert(front[i] == scripts[i]);
        }
        law_bans_keep_the_setup(before, front);
        let between = run_all(before, front);
        let script = scripts.last();
        assert(is_ban_or_unban(scripts[scripts.len() - 1]));
        if exists|a: Address, n: nat| a.valid() && script == #[trigger] ban_script(a, n) {
            let (a, n) = choose|a: Address, n: nat|
                a.valid() && script == #[trigger] ban_script(a, n);
            law_ban_adds_one_address(a, n, between);
        } else {
            let a = choose|a: Address| a.valid() && script == #[trigger] unban_script(a);
            law_unban_removes_one_address(a, between);
        }
    }
}

/// Setting up again, after any bans and whatever was lifted of them, leaves everything
/// as it is: every ban is kept, and the chain has its two rules, not four.
pub proof fn law_setup_again_keeps_the_bans(before: Ruleset, scripts: Seq<Seq<char>>)
    requires
        forall|i: int| 0 <= i < scripts.len() ==> is_ban_or_unban(#[trigger] scripts[i]),
    ensures
        ({
            let now = run_all(run(before, setup_script()), scripts);
            &&& run(now, setup_script()) == now
            &&& bans(run(now, setup_script())) == bans(now)
            &&& run(now, setup_script())[home()].chains["drop_blackholed"@].rules == drop_rules()
        }),
{
    law_setup_sets_up(before);
    law_bans_keep_the_setup(run(before, setup_script()), scripts);
    law_setup_changes_nothing_again(run_all(run(before, setup_script()), scripts));
}

/// The listing `text` shows the banned addresses, and no others, as words.
pub open spec fn shows(text: Seq<char>, banned: Set<Address>) -> bool {
    forall|b: Address| #[trigger]
        banned.contains(b) <==> exists|i: int|
            0 <= i < split(text, Separator::Listing.pred()).len() && parse_address(
                #[trigger] split(text, Separator::Listing.pred())[i],
            ) == Some(b)
}

/// What is read from a listing of the bans is the bans.
pub proof fn law_listing_gives_the_bans(text: Seq<char>, banned: Set<Address>)
    requires
        shows(text, banned),
    ensures
        forall|b: Address| listed(text).contains(b) <==> #[trigger] banned.contains(b),
{
    assert forall|b: Address| listed(text).contains(b) <==> #[trigger] banned.contains(b) by {
        law_addresses_among(split(text, Separator::Listing.pred()), b);
    }
}

/// What is read from a listing: what its words denote, those between commas, braces and
/// white space, in order.
pub proof fn law_listed_words(text: Seq<char>)
    ensures
        listed(text) == split(text, Separator::Listing.pred()).filter(
            |word: Seq<char>| parse_address(word) is Some,
        ).map_values(|word: Seq<char>| parse_address(word)->0),
{
    law_addresses_among_in_order(split(text, Separator::Listing.pred()));
}

/// The bans of several listings are those of the first ones, then those of the others.
/// One listing gives all that it shows, however much that is, and one that failed gives
/// nothing.
pub proof fn law_listings_add_up(first: Seq<Output>, others: Seq<Output>, output: Output)
    ensures
        banned_in(first + others) == banned_in(first) + banned_in(others),
        output.success ==> banned_in(seq![output]) == listed(text_of(output.stdout@)),
        !output.success ==> banned_in(seq![output]) == Seq::<Address>::empty(),
        banned_in(Seq::<Output>::empty()) == Seq::<Address>::empty(),
    decreases others.len(),
{
    reveal_with_fuel(banned_in, 2);
    assert(seq![output].drop_last() =~= Seq::<Output>::empty());
    assert(seq![output].last() == output);
    if others.len() == 0 {
        assert(first + others =~= first);
        assert(banned_in(first) + banned_in(others) =~= banned_in(first));
    } else {
        law_listings_add_up(first, others.drop_last(), output);
        assert((first + others).drop_last() =~= first + others.drop_last());
        assert((first + others).last() == others.last());
        assert(banned_in(first + others) =~= banned_in(first) + banned_in(others));
    }
    assert(banned_in(seq![output]) =~= if output.success {
        listed(text_of(output.stdout@))
    } else {
        Seq::<Address>::empty()
    });
}

/// An address is among the bans exactly if a listing that succeeded shows it as a word.
pub proof fn law_banned_exactly_if_shown(outputs: Seq<Output>, a: Address)
    ensures
        banned_in(outputs).contains(a) <==> exists|k: int, i: int|
            0 <= k < outputs.len() && outputs[k].success && 0 <= i < split(
                text_of(outputs[k].stdout@),
                Separator::Listing.pred(),
            ).len() && parse_address(
                #[trigger] split(text_of(outputs[k].stdout@), Separator::Listing.pred())[i],
            ) == Some(a),
    decreases outputs.len(),
{
    if outputs.len() > 0 {
        let front = outputs.drop_last();
        let last = outputs.last();
        let shown = split(text_of(last.stdout@), Separator::Listing.pred());
        let some = banned_in(front);
        let all = banned_in(outputs);
        let more = listed(text_of(last.stdout@));
        law_banned_exactly_if_shown(front, a);
        law_addresses_among(shown, a);
        if all.contains(a) {
            let x = choose|x: int| 0 <= x < all.len() && all[x] == a;
            if x < some.len() {
                assert(some[x] == a);
                let (k, i) = choose|k: int, i: int|
                    0 <= k < front.len() && front[k].success && 0 <= i < split(
                        text_of(front[k].stdout@),
                        Separator::Listing.pred(),
                    ).len() && parse_address(
                        #[trigger] split(text_of(front[k].stdout@), Separator::Listing.pred())[i],
                    ) == Some(a);
                assert(outputs[k] == front[k]);
            } else {
                assert(more[x - some.len()] == a);
                assert(more.contains(a));
                let i = choose|i: int|
                    0 <= i < shown.len() && parse_address(#[trigger] shown[i]) == Some(a);
                let k = outputs.len() - 1;
                assert(outputs[k] == last);
                assert(parse_address(
                    split(text_of(outputs[k].stdout@), Separator::Listing.pred())[i],
                ) == Some(a));
            }
        }
        if exists|k: int, i: int|
            0 <= k < outputs.len() && outputs[k].success && 0 <= i < split(
                text_of(outputs[k].stdout@),
                Separator::Listing.pred(),
            ).len() && parse_address(
                #[trigger] split(text_of(outputs[k].stdout@), Separator::Listing.pred())[i],
            ) == Some(a) {
            let (k, i) = choose|k: int, i: int|
                0 <= k < outputs.len() && outputs[k].success && 0 <= i < split(
                    text_of(outputs[k].stdout@),
                    Separator::Listing.pred(),
                ).len() && parse_address(
                    #[trigger] split(text_of(outputs[k].stdout@), Separator::Listing.pred())[i],
                ) == Some(a);
            if k < front.len() {
                assert(front[k] == outputs[k]);
                assert(some.contains(a));
                let x = choose|x: int| 0 <= x < some.len() && some[x] == a;
                assert(all[x] == a);
            } else {
                assert(parse_address(shown[i]) == Some(a));
                assert(more.contains(a));
                let x = choose|x: int| 0 <= x < more.len() && more[x] == a;
                assert(all[some.len() + x] == a);
            }
        }
    }
}

/// Bytes that are UTF-8 are read as they stand.
pub proof fn law_utf8_is_read_as_it_stands(bytes: Seq<u8>)
    ensures
        valid_utf8(bytes) ==> text_of(bytes) == decode_utf8(bytes),
        !valid_utf8(bytes) ==> text_of(bytes) == utf8_lossy(bytes),
{
}

/// A ban lasts as many whole seconds as fit into its duration. A duration under a second
/// is a ban of one second.
pub proof fn law_ban_lasts_whole_seconds(duration: Duration)
    ensures
        duration.total() < 1_000_000_000 ==> ban_secs_of(duration) == 1,
        duration.total() >= 1_000_000_000 ==> ban_secs_of(duration) * 1_000_000_000
            <= duration.total() < (ban_secs_of(duration) + 1) * 1_000_000_000,
{
}

/// What is run to carry out a script: `nft -f -`, which is fed the script.
pub proof fn law_script_command(script: Seq<char>)
    ensures
        script_command(script).program == "nft"@,
        script_command(script).args == seq!["-f"@, "-"@],
        script_command(script).stdin == Some(script),
{
}

/// What is run to list a set of the table: `nft list set inet vortexwall` and its name.
pub proof fn law_list_command(set: Seq<char>)
    ensures
        list_command(set).program == "nft"@,
        list_command(set).args == seq!["list"@, "set"@, "inet"@, "vortexwall"@] + seq![set],
        list_command(set).stdin is None,
{
    assert(list_command(set).args =~= seq!["list"@, "set"@, "inet"@, "vortexwall"@] + seq![set]);
}

/// The set of an address is that of its family, whatever the address.
pub proof fn law_set_of_the_family(a: Address)
    ensures
        a is V4 ==> set_of(a) == "blackhole"@,
        a is V6 ==> set_of(a) == "blackhole6"@,
        TABLE@ == "inet vortexwall"@,
        NO_SUCH_TABLE@ == "No such file or directory"@,
{
}

/// A failure is described by what nft was told, then by what it wrote.
pub proof fn law_error_text(what: Seq<char>, stderr: Seq<char>)
    ensures
        error_text(what, stderr) == "nft failed on `"@ + (what + ("`: "@ + stderr)),
{
    assert(error_text(what, stderr) =~= "nft failed on `"@ + (what + ("`: "@ + stderr)));
}

} // verus!
