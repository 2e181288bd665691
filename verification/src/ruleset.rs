//! What nftables makes of a script. A model of the ruleset, as far as the statements
//! of this library reach: which tables there are, what their sets hold and which
//! rules their chains have. That nftables behaves so is its documentation's promise;
//! the laws on the ruleset are about the scripts, read this way.

use vstd::prelude::*;

use crate::ip::{parse_address, Address};
use crate::text::{
    is_char, lacks, lemma_split_append, lemma_split_concat, lemma_split_lacking, split, value,
};

verus! {

/// A set of addresses, with the words it was declared by. Every element has a timeout,
/// in seconds.
#[verifier::ext_equal]
pub struct NamedSet {
    pub declared: Seq<Seq<char>>,
    pub elements: Map<Address, nat>,
}

/// A chain, with the words it was declared by and the words of its rules, in the
/// order in which they are tried.
#[verifier::ext_equal]
pub struct Chain {
    pub declared: Seq<Seq<char>>,
    pub rules: Seq<Seq<Seq<char>>>,
}

/// What is in a table, by name.
#[verifier::ext_equal]
pub struct Table {
    pub sets: Map<Seq<char>, NamedSet>,
    pub chains: Map<Seq<char>, Chain>,
}

/// The tables, by family and name.
pub type Ruleset = Map<(Seq<char>, Seq<char>), Table>;

/// A table with nothing in it.
pub open spec fn empty_table() -> Table {
    Table { sets: Map::empty(), chains: Map::empty() }
}

/// The words of a statement.
pub open spec fn words(line: Seq<char>) -> Seq<Seq<char>> {
    split(line, is_char(' '))
}

/// `sets` with the set `name`. One that exists already stays as it is.
pub open spec fn with_set(
    sets: Map<Seq<char>, NamedSet>,
    name: Seq<char>,
    declared: Seq<Seq<char>>,
) -> Map<Seq<char>, NamedSet> {
    if sets.contains_key(name) {
        sets
    } else {
        sets.insert(name, NamedSet { declared, elements: Map::empty() })
    }
}

/// `chains` with the chain `name`. One that exists already stays as it is.
pub open spec fn with_chain(
    chains: Map<Seq<char>, Chain>,
    name: Seq<char>,
    declared: Seq<Seq<char>>,
) -> Map<Seq<char>, Chain> {
    if chains.contains_key(name) {
        chains
    } else {
        chains.insert(name, Chain { declared, rules: Seq::empty() })
    }
}

/// `chains` with these rules in the chain `name`, if there is one.
pub open spec fn with_rules(
    chains: Map<Seq<char>, Chain>,
    name: Seq<char>,
    rules: Seq<Seq<Seq<char>>>,
) -> Map<Seq<char>, Chain> {
    if chains.contains_key(name) {
        chains.insert(name, Chain { rules, ..chains[name] })
    } else {
        chains
    }
}

/// `sets` with these elements in the set `name`, if there is one.
pub open spec fn with_elements(
    sets: Map<Seq<char>, NamedSet>,
    name: Seq<char>,
    elements: Map<Address, nat>,
) -> Map<Seq<char>, NamedSet> {
    if sets.contains_key(name) {
        sets.insert(name, NamedSet { elements, ..sets[name] })
    } else {
        sets
    }
}

/// `elements` with `a`, for `timeout` seconds. One that is there already stays as it is.
pub open spec fn with_element(
    elements: Map<Address, nat>,
    a: Address,
    timeout: nat,
) -> Map<Address, nat> {
    if elements.contains_key(a) {
        elements
    } else {
        elements.insert(a, timeout)
    }
}

/// The seconds that a word such as `3600s` gives.
pub open spec fn seconds(word: Seq<char>) -> nat {
    value(word.drop_last(), 10) as nat
}

/// What the statement that begins with the words `verb` and `kind` does to the table
/// it names, given the words after the table: first the name of the set or the chain,
/// then what is said of it. An element stands after an opening brace, and its timeout
/// after it and the word `timeout`.
pub open spec fn table_step(
    table: Table,
    verb: Seq<char>,
    kind: Seq<char>,
    args: Seq<Seq<char>>,
) -> Table {
    let Table { sets, chains } = table;
    let name = args[0];
    if verb == "add"@ && kind == "set"@ {
        Table { sets: with_set(sets, name, args.skip(1)), chains }
    } else if verb == "add"@ && kind == "chain"@ {
        Table { sets, chains: with_chain(chains, name, args.skip(1)) }
    } else if verb == "flush"@ && kind == "chain"@ {
        Table { sets, chains: with_rules(chains, name, Seq::empty()) }
    } else if verb == "add"@ && kind == "rule"@ {
        Table { sets, chains: with_rules(chains, name, chains[name].rules.push(args.skip(1))) }
    } else if kind == "element"@ && parse_address(args[2]) is Some {
        let a = parse_address(args[2])->0;
        let elements = sets[name].elements;
        if verb == "add"@ && args[3] == "timeout"@ {
            Table { sets: with_elements(sets, name, with_element(elements, a, seconds(args[4]))), chains }
        } else if verb == "delete"@ {
            Table { sets: with_elements(sets, name, elements.remove(a)), chains }
        } else {
            table
        }
    } else {
        table
    }
}

/// What the statement `line` does: it is carried out in the table that its third and
/// fourth word name, and `add table` makes a table where there is none.
pub open spec fn step(before: Ruleset, line: Seq<char>) -> Ruleset {
    let w = words(line);
    let table = (w[2], w[3]);
    if w.len() < 4 {
        before
    } else if w[0] == "add"@ && w[1] == "table"@ {
        if before.contains_key(table) {
            before
        } else {
            before.insert(table, empty_table())
        }
    } else if before.contains_key(table) {
        before.insert(table, table_step(before[table], w[0], w[1], w.skip(4)))
    } else {
        before
    }
}

/// What statements do, one after the other.
pub open spec fn steps(before: Ruleset, lines: Seq<Seq<char>>) -> Ruleset
    decreases lines.len(),
{
    if lines.len() == 0 {
        before
    } else {
        step(steps(before, lines.drop_last()), lines.last())
    }
}

/// What a script does once nft has accepted it. Each of its lines is a statement or
/// empty.
pub open spec fn run(before: Ruleset, script: Seq<char>) -> Ruleset {
    steps(before, split(script, is_char('\n')))
}

/// What scripts do, one after the other.
pub open spec fn run_all(before: Ruleset, scripts: Seq<Seq<char>>) -> Ruleset
    decreases scripts.len(),
{
    if scripts.len() == 0 {
        before
    } else {
        run(run_all(before, scripts.drop_last()), scripts.last())
    }
}

/// The words of a statement on a table.
pub proof fn lemma_words(
    verb: Seq<char>,
    kind: Seq<char>,
    family: Seq<char>,
    name: Seq<char>,
    rest: Seq<char>,
)
    requires
        lacks(verb, ' '),
        lacks(kind, ' '),
        lacks(family, ' '),
        lacks(name, ' '),
    ensures
        words(verb.push(' ') + kind.push(' ') + family.push(' ') + name.push(' ') + rest) == seq![
            verb,
            kind,
            family,
            name,
        ] + words(rest),
{
    let a = verb.push(' ') + kind;
    let b = a.push(' ') + family;
    let c = b.push(' ') + name;
    lemma_split_lacking(verb, ' ');
    lemma_split_append(verb, ' ', kind);
    lemma_split_append(a, ' ', family);
    lemma_split_append(b, ' ', name);
    lemma_split_concat(c, ' ', rest);
    assert(words(c) =~= seq![verb, kind, family, name]);
    assert(verb.push(' ') + kind.push(' ') + family.push(' ') + name.push(' ') + rest =~= c.push(
        ' ',
    ) + rest);
}

/// The words of a statement stand between single spaces.
pub proof fn law_words(a: Seq<char>, b: Seq<char>)
    ensures
        words(a + " "@ + b) == words(a) + words(b),
        !a.contains(' ') ==> words(a) == seq![a],
{
    reveal_strlit(" ");
    lemma_split_concat(a, ' ', b);
    assert(a + " "@ + b =~= a.push(' ') + b);
    if !a.contains(' ') {
        assert(lacks(a, ' ')) by {
            assert forall|i: int| 0 <= i < a.len() implies a[i] != ' ' by {
                if a[i] == ' ' {
                    assert(a.contains(' '));
                }
            }
        }
        lemma_split_lacking(a, ' ');
    }
}

} // verus!
