//! What setting up the table amounts to, as often as it is done.

use vstd::prelude::*;

use crate::nft::{setup_script, TABLE};
use crate::ruleset::{
    empty_table, lemma_words, run, step, steps, table_step, with_chain, with_rules, with_set, words,
    Ruleset, Table,
};
use crate::text::{
    is_char, lacks, lemma_split_append, lemma_split_concat, lemma_split_lacking, split,
};

verus! {

// ---------------------------------------------------------------------------
// The script's statements
// ---------------------------------------------------------------------------

/// The statements of the script that sets up the table.
pub open spec fn setup_lines() -> Seq<Seq<char>> {
    seq![
        "add table "@ + TABLE@,
        "add set "@ + TABLE@ + " blackhole { type ipv4_addr; flags timeout; }"@,
        "add set "@ + TABLE@ + " blackhole6 { type ipv6_addr; flags timeout; }"@,
        "add chain "@ + TABLE@
            + " drop_blackholed { type filter hook prerouting priority -300; policy accept; }"@,
        "flush chain "@ + TABLE@ + " drop_blackholed"@,
        "add rule "@ + TABLE@ + " drop_blackholed ip saddr @blackhole drop"@,
        "add rule "@ + TABLE@ + " drop_blackholed ip6 saddr @blackhole6 drop"@,
    ]
}

/// The pieces of the script break where its lines do.
proof fn lemma_setup_pieces()
    ensures
        "\nadd table "@ == seq!['\n'] + "add table "@,
        "\nadd set "@ == seq!['\n'] + "add set "@,
        " blackhole { type ipv4_addr; flags timeout; }\nadd set "@
            == " blackhole { type ipv4_addr; flags timeout; }"@ + seq!['\n'] + "add set "@,
        " blackhole6 { type ipv6_addr; flags timeout; }\nadd chain "@
            == " blackhole6 { type ipv6_addr; flags timeout; }"@ + seq!['\n'] + "add chain "@,
        " drop_blackholed { type filter hook prerouting priority -300; policy accept; }\nflush chain "@
            == " drop_blackholed { type filter hook prerouting priority -300; policy accept; }"@
            + seq!['\n'] + "flush chain "@,
        " drop_blackholed\nadd rule "@ == " drop_blackholed"@ + seq!['\n'] + "add rule "@,
        " drop_blackholed ip saddr @blackhole drop\nadd rule "@
            == " drop_blackholed ip saddr @blackhole drop"@ + seq!['\n'] + "add rule "@,
        " drop_blackholed ip6 saddr @blackhole6 drop\n"@
            == " drop_blackholed ip6 saddr @blackhole6 drop"@ + seq!['\n'],
{
    reveal_strlit("add table ");
    reveal_strlit("add set ");
    reveal_strlit("add chain ");
    reveal_strlit("flush chain ");
    reveal_strlit("add rule ");
    assert("\nadd table "@ == seq!['\n'] + "add table "@) by {
        reveal_strlit("\nadd table ");
    }
    assert("\nadd set "@ == seq!['\n'] + "add set "@) by {
        reveal_strlit("\nadd set ");
    }
    assert(" blackhole { type ipv4_addr; flags timeout; }\nadd set "@
        == " blackhole { type ipv4_addr; flags timeout; }"@ + seq!['\n'] + "add set "@) by {
        reveal_strlit(" blackhole { type ipv4_addr; flags timeout; }");
        reveal_strlit(" blackhole { type ipv4_addr; flags timeout; }\nadd set ");
    }
    assert(" blackhole6 { type ipv6_addr; flags timeout; }\nadd chain "@
        == " blackhole6 { type ipv6_addr; flags timeout; }"@ + seq!['\n'] + "add chain "@) by {
        reveal_strlit(" blackhole6 { type ipv6_addr; flags timeout; }");
        reveal_strlit(" blackhole6 { type ipv6_addr; flags timeout; }\nadd chain ");
    }
    assert(" drop_blackholed { type filter hook prerouting priority -300; policy accept; }\nflush chain "@
        == " drop_blackholed { type filter hook prerouting priority -300; policy accept; }"@
        + seq!['\n'] + "flush chain "@) by {
        reveal_strlit(" drop_blackholed { type filter hook prerouting priority -300; policy accept; }");
        reveal_strlit(
            " drop_blackholed { type filter hook prerouting priority -300; policy accept; }\nflush chain ",
        );
    }
    assert(" drop_blackholed\nadd rule "@ == " drop_blackholed"@ + seq!['\n'] + "add rule "@) by {
        reveal_strlit(" drop_blackholed");
        reveal_strlit(" drop_blackholed\nadd rule ");
    }
    assert(" drop_blackholed ip saddr @blackhole drop\nadd rule "@
        == " drop_blackholed ip saddr @blackhole drop"@ + seq!['\n'] + "add rule "@) by {
        reveal_strlit(" drop_blackholed ip saddr @blackhole drop");
        reveal_strlit(" drop_blackholed ip saddr @blackhole drop\nadd rule ");
    }
    assert(" drop_blackholed ip6 saddr @blackhole6 drop\n"@
        == " drop_blackholed ip6 saddr @blackhole6 drop"@ + seq!['\n']) by {
        reveal_strlit(" drop_blackholed ip6 saddr @blackhole6 drop");
        reveal_strlit(" drop_blackholed ip6 saddr @blackhole6 drop\n");
    }
}

/// No statement of the script holds a line break.
proof fn lemma_setup_lines_are_lines()
    ensures
        forall|i: int| 0 <= i < 7 ==> lacks(#[trigger] setup_lines()[i], '\n'),
{
    reveal_strlit("inet vortexwall");
    reveal_strlit("add table ");
    reveal_strlit("add set ");
    reveal_strlit("add chain ");
    reveal_strlit("flush chain ");
    reveal_strlit("add rule ");
    reveal_strlit(" blackhole { type ipv4_addr; flags timeout; }");
    reveal_strlit(" blackhole6 { type ipv6_addr; flags timeout; }");
    reveal_strlit(" drop_blackholed { type filter hook prerouting priority -300; policy accept; }");
    reveal_strlit(" drop_blackholed");
    reveal_strlit(" drop_blackholed ip saddr @blackhole drop");
    reveal_strlit(" drop_blackholed ip6 saddr @blackhole6 drop");
    assert forall|i: int| 0 <= i < 7 implies lacks(#[trigger] setup_lines()[i], '\n') by {
        let line = setup_lines()[i];
        assert forall|k: int| 0 <= k < line.len() implies line[k] != '\n' by {}
    }
}

/// Where a script so far ends in `verb`, at the start of a line, what follows ends that
/// line and begins the next one with `next`.
proof fn lemma_next_line(
    so_far: Seq<char>,
    lines: Seq<char>,
    verb: Seq<char>,
    rest: Seq<char>,
    next: Seq<char>,
)
    requires
        so_far == lines.push('\n') + verb,
    ensures
        so_far + TABLE@ + (rest + seq!['\n'] + next) == (lines.push('\n') + (verb + TABLE@
            + rest)).push('\n') + next,
{
    assert(so_far + TABLE@ + (rest + seq!['\n'] + next) =~= (lines.push('\n') + (verb + TABLE@
        + rest)).push('\n') + next);
}

/// The lines of the script that sets up the table are its statements, between two
/// empty lines.
pub proof fn law_setup_lines()
    ensures
        split(setup_script(), is_char('\n')) == seq![Seq::<char>::empty()] + setup_lines() + seq![
            Seq::<char>::empty(),
        ],
{
    let none = Seq::<char>::empty();
    let l = setup_lines();
    lemma_setup_lines_are_lines();
    let s0 = none.push('\n') + l[0];
    let s1 = s0.push('\n') + l[1];
    let s2 = s1.push('\n') + l[2];
    let s3 = s2.push('\n') + l[3];
    let s4 = s3.push('\n') + l[4];
    let s5 = s4.push('\n') + l[5];
    let s6 = s5.push('\n') + l[6];
    let s7 = s6.push('\n') + none;
    lemma_split_lacking(none, '\n');
    lemma_split_append(none, '\n', l[0]);
    lemma_split_append(s0, '\n', l[1]);
    lemma_split_append(s1, '\n', l[2]);
    lemma_split_append(s2, '\n', l[3]);
    lemma_split_append(s3, '\n', l[4]);
    lemma_split_append(s4, '\n', l[5]);
    lemma_split_append(s5, '\n', l[6]);
    lemma_split_append(s6, '\n', none);
    assert(split(s7, is_char('\n')) =~= seq![none] + l + seq![none]);
    lemma_setup_pieces();
    let p0 = "\nadd table "@ + TABLE@ + "\nadd set "@;
    let p1 = p0 + TABLE@ + " blackhole { type ipv4_addr; flags timeout; }\nadd set "@;
    let p2 = p1 + TABLE@ + " blackhole6 { type ipv6_addr; flags timeout; }\nadd chain "@;
    let p3 = p2 + TABLE@
        + " drop_blackholed { type filter hook prerouting priority -300; policy accept; }\nflush chain "@;
    let p4 = p3 + TABLE@ + " drop_blackholed\nadd rule "@;
    let p5 = p4 + TABLE@ + " drop_blackholed ip saddr @blackhole drop\nadd rule "@;
    assert(p0 =~= s0.push('\n') + "add set "@);
    lemma_next_line(p0, s0, "add set "@, " blackhole { type ipv4_addr; flags timeout; }"@, "add set "@);
    lemma_next_line(
        p1,
        s1,
        "add set "@,
        " blackhole6 { type ipv6_addr; flags timeout; }"@,
        "add chain "@,
    );
    lemma_next_line(
        p2,
        s2,
        "add chain "@,
        " drop_blackholed { type filter hook prerouting priority -300; policy accept; }"@,
        "flush chain "@,
    );
    lemma_next_line(p3, s3, "flush chain "@, " drop_blackholed"@, "add rule "@);
    lemma_next_line(
        p4,
        s4,
        "add rule "@,
        " drop_blackholed ip saddr @blackhole drop"@,
        "add rule "@,
    );
    lemma_next_line(
        p5,
        s5,
        "add rule "@,
        " drop_blackholed ip6 saddr @blackhole6 drop"@,
        none,
    );
    assert(" drop_blackholed ip6 saddr @blackhole6 drop"@ + seq!['\n'] + none
        =~= " drop_blackholed ip6 saddr @blackhole6 drop\n"@);
    assert(s7 == setup_script());
}

/// The words that begin the statements differ.
pub proof fn lemma_keywords_differ()
    ensures
        "flush"@ != "add"@,
        "delete"@ != "add"@,
        "delete"@ != "flush"@,
        "set"@ != "table"@,
        "chain"@ != "table"@,
        "chain"@ != "set"@,
        "rule"@ != "table"@,
        "rule"@ != "set"@,
        "rule"@ != "chain"@,
        "element"@ != "table"@,
        "element"@ != "set"@,
        "element"@ != "chain"@,
        "element"@ != "rule"@,
{
    reveal_strlit("add");
    reveal_strlit("flush");
    reveal_strlit("delete");
    reveal_strlit("table");
    reveal_strlit("set");
    reveal_strlit("chain");
    reveal_strlit("rule");
    reveal_strlit("element");
    assert("flush"@.len() == 5 && "add"@.len() == 3 && "delete"@.len() == 6);
    assert("set"@.len() == 3 && "rule"@.len() == 4 && "element"@.len() == 7);
    assert("table"@.len() == 5 && "chain"@.len() == 5);
    assert("table"@[0] == 't' && "chain"@[0] == 'c');
}

/// The words of a statement on the table.
proof fn lemma_statement(
    verb: Seq<char>,
    kind: Seq<char>,
    head: Seq<char>,
    rest: Seq<char>,
    args: Seq<char>,
)
    requires
        lacks(verb, ' '),
        lacks(kind, ' '),
        head == verb.push(' ') + kind.push(' '),
        rest == seq![' '] + args,
    ensures
        words(head + TABLE@ + rest) == seq![verb, kind, "inet"@, "vortexwall"@] + words(args),
{
    reveal_strlit("inet");
    reveal_strlit("vortexwall");
    assert(TABLE@ == "inet"@.push(' ') + "vortexwall"@) by {
        reveal_strlit("inet vortexwall");
    }
    lemma_words(verb, kind, "inet"@, "vortexwall"@, args);
    assert(head + TABLE@ + rest =~= verb.push(' ') + kind.push(' ') + "inet"@.push(' ')
        + "vortexwall"@.push(' ') + args);
}

/// The same where the statement goes on with a name and what is said of it.
pub proof fn lemma_named_statement(
    verb: Seq<char>,
    kind: Seq<char>,
    head: Seq<char>,
    rest: Seq<char>,
    name: Seq<char>,
    args: Seq<char>,
)
    requires
        lacks(verb, ' '),
        lacks(kind, ' '),
        lacks(name, ' '),
        head == verb.push(' ') + kind.push(' '),
        rest == seq![' '] + name.push(' ') + args,
    ensures
        words(head + TABLE@ + rest) == seq![verb, kind, "inet"@, "vortexwall"@, name] + words(args),
{
    assert(rest =~= seq![' '] + (name.push(' ') + args));
    lemma_statement(verb, kind, head, rest, name.push(' ') + args);
    lemma_split_concat(name, ' ', args);
    lemma_split_lacking(name, ' ');
    assert(seq![verb, kind, "inet"@, "vortexwall"@] + (seq![name] + words(args)) =~= seq![
        verb,
        kind,
        "inet"@,
        "vortexwall"@,
        name,
    ] + words(args));
}

/// Every statement of the setup names the table. Every one but one is an `add`; that
/// one flushes the chain, and stands after the chain was added and before its two rules
/// are.
pub proof fn law_setup_statements()
    ensures
        words(setup_lines()[0]) == seq!["add"@, "table"@, "inet"@, "vortexwall"@],
        words(setup_lines()[1]) == seq!["add"@, "set"@, "inet"@, "vortexwall"@, "blackhole"@]
            + words("{ type ipv4_addr; flags timeout; }"@),
        words(setup_lines()[2]) == seq!["add"@, "set"@, "inet"@, "vortexwall"@, "blackhole6"@]
            + words("{ type ipv6_addr; flags timeout; }"@),
        words(setup_lines()[3]) == seq![
            "add"@,
            "chain"@,
            "inet"@,
            "vortexwall"@,
            "drop_blackholed"@,
        ] + words("{ type filter hook prerouting priority -300; policy accept; }"@),
        words(setup_lines()[4]) == seq![
            "flush"@,
            "chain"@,
            "inet"@,
            "vortexwall"@,
            "drop_blackholed"@,
        ],
        words(setup_lines()[5]) == seq![
            "add"@,
            "rule"@,
            "inet"@,
            "vortexwall"@,
            "drop_blackholed"@,
        ] + words("ip saddr @blackhole drop"@),
        words(setup_lines()[6]) == seq![
            "add"@,
            "rule"@,
            "inet"@,
            "vortexwall"@,
            "drop_blackholed"@,
        ] + words("ip6 saddr @blackhole6 drop"@),
{
    reveal_strlit("add");
    reveal_strlit("flush");
    reveal_strlit("table");
    reveal_strlit("set");
    reveal_strlit("chain");
    reveal_strlit("rule");
    reveal_strlit("blackhole");
    reveal_strlit("blackhole6");
    reveal_strlit("drop_blackholed");
    assert("add table "@ =~= "add"@.push(' ') + "table"@.push(' ')) by {
        reveal_strlit("add table ");
    }
    assert("add set "@ =~= "add"@.push(' ') + "set"@.push(' ')) by {
        reveal_strlit("add set ");
    }
    assert("add chain "@ =~= "add"@.push(' ') + "chain"@.push(' ')) by {
        reveal_strlit("add chain ");
    }
    assert("flush chain "@ =~= "flush"@.push(' ') + "chain"@.push(' ')) by {
        reveal_strlit("flush chain ");
    }
    assert("add rule "@ =~= "add"@.push(' ') + "rule"@.push(' ')) by {
        reveal_strlit("add rule ");
    }
    assert(words(setup_lines()[0]) == seq!["add"@, "table"@, "inet"@, "vortexwall"@]) by {
        reveal_strlit("inet");
        reveal_strlit("vortexwall");
        reveal_strlit("inet vortexwall");
        let verb = "add"@.push(' ') + "table"@;
        let family = verb.push(' ') + "inet"@;
        lemma_split_lacking("add"@, ' ');
        lemma_split_append("add"@, ' ', "table"@);
        lemma_split_append(verb, ' ', "inet"@);
        lemma_split_append(family, ' ', "vortexwall"@);
        assert(setup_lines()[0] =~= family.push(' ') + "vortexwall"@);
    }
    assert(words(setup_lines()[1]) == seq![
        "add"@,
        "set"@,
        "inet"@,
        "vortexwall"@,
        "blackhole"@,
    ] + words("{ type ipv4_addr; flags timeout; }"@)) by {
        let rest = " blackhole { type ipv4_addr; flags timeout; }"@;
        let args = "{ type ipv4_addr; flags timeout; }"@;
        assert(rest =~= seq![' '] + "blackhole"@.push(' ') + args) by {
            reveal_strlit(" blackhole { type ipv4_addr; flags timeout; }");
            reveal_strlit("{ type ipv4_addr; flags timeout; }");
        }
        lemma_named_statement("add"@, "set"@, "add set "@, rest, "blackhole"@, args);
    }
    assert(words(setup_lines()[2]) == seq![
        "add"@,
        "set"@,
        "inet"@,
        "vortexwall"@,
        "blackhole6"@,
    ] + words("{ type ipv6_addr; flags timeout; }"@)) by {
        let rest = " blackhole6 { type ipv6_addr; flags timeout; }"@;
        let args = "{ type ipv6_addr; flags timeout; }"@;
        assert(rest =~= seq![' '] + "blackhole6"@.push(' ') + args) by {
            reveal_strlit(" blackhole6 { type ipv6_addr; flags timeout; }");
            reveal_strlit("{ type ipv6_addr; flags timeout; }");
        }
        lemma_named_statement("add"@, "set"@, "add set "@, rest, "blackhole6"@, args);
    }
    assert(words(setup_lines()[3]) == seq![
        "add"@,
        "chain"@,
        "inet"@,
        "vortexwall"@,
        "drop_blackholed"@,
    ] + words("{ type filter hook prerouting priority -300; policy accept; }"@)) by {
        let rest = " drop_blackholed { type filter hook prerouting priority -300; policy accept; }"@;
        let args = "{ type filter hook prerouting priority -300; policy accept; }"@;
        assert(rest =~= seq![' '] + "drop_blackholed"@.push(' ') + args) by {
            reveal_strlit(
                " drop_blackholed { type filter hook prerouting priority -300; policy accept; }",
            );
            reveal_strlit("{ type filter hook prerouting priority -300; policy accept; }");
        }
        lemma_named_statement("add"@, "chain"@, "add chain "@, rest, "drop_blackholed"@, args);
    }
    assert(words(setup_lines()[4]) == seq![
        "flush"@,
        "chain"@,
        "inet"@,
        "vortexwall"@,
        "drop_blackholed"@,
    ]) by {
        assert(" drop_blackholed"@ =~= seq![' '] + "drop_blackholed"@) by {
            reveal_strlit(" drop_blackholed");
        }
        lemma_statement(
            "flush"@,
            "chain"@,
            "flush chain "@,
            " drop_blackholed"@,
            "drop_blackholed"@,
        );
        lemma_split_lacking("drop_blackholed"@, ' ');
    }
    assert(words(setup_lines()[5]) == seq![
        "add"@,
        "rule"@,
        "inet"@,
        "vortexwall"@,
        "drop_blackholed"@,
    ] + words("ip saddr @blackhole drop"@)) by {
        let rest = " drop_blackholed ip saddr @blackhole drop"@;
        let args = "ip saddr @blackhole drop"@;
        assert(rest =~= seq![' '] + "drop_blackholed"@.push(' ') + args) by {
            reveal_strlit(" drop_blackholed ip saddr @blackhole drop");
            reveal_strlit("ip saddr @blackhole drop");
        }
        lemma_named_statement("add"@, "rule"@, "add rule "@, rest, "drop_blackholed"@, args);
    }
    assert(words(setup_lines()[6]) == seq![
        "add"@,
        "rule"@,
        "inet"@,
        "vortexwall"@,
        "drop_blackholed"@,
    ] + words("ip6 saddr @blackhole6 drop"@)) by {
        let rest = " drop_blackholed ip6 saddr @blackhole6 drop"@;
        let args = "ip6 saddr @blackhole6 drop"@;
        assert(rest =~= seq![' '] + "drop_blackholed"@.push(' ') + args) by {
            reveal_strlit(" drop_blackholed ip6 saddr @blackhole6 drop");
            reveal_strlit("ip6 saddr @blackhole6 drop");
        }
        lemma_named_statement("add"@, "rule"@, "add rule "@, rest, "drop_blackholed"@, args);
    }
}

// ---------------------------------------------------------------------------
// What the setup does
// ---------------------------------------------------------------------------

/// The table of this library, by family and name.
pub open spec fn home() -> (Seq<char>, Seq<char>) {
    ("inet"@, "vortexwall"@)
}

/// The rules of the chain: drop what comes from an address in one of the sets.
pub open spec fn drop_rules() -> Seq<Seq<Seq<char>>> {
    seq![words("ip saddr @blackhole drop"@), words("ip6 saddr @blackhole6 drop"@)]
}

/// The table once it is set up: the sets and the chain that it lacked are there, and
/// the chain has the two rules.
pub open spec fn table_set_up(table: Table) -> Table {
    let sets = with_set(
        table.sets,
        "blackhole"@,
        words("{ type ipv4_addr; flags timeout; }"@),
    );
    let chains = with_chain(
        table.chains,
        "drop_blackholed"@,
        words("{ type filter hook prerouting priority -300; policy accept; }"@),
    );
    Table {
        sets: with_set(sets, "blackhole6"@, words("{ type ipv6_addr; flags timeout; }"@)),
        chains: with_rules(chains, "drop_blackholed"@, drop_rules()),
    }
}

/// The table is there, with both sets, and with the two rules in its chain.
pub open spec fn is_set_up(r: Ruleset) -> bool {
    &&& r.contains_key(home())
    &&& r[home()].sets.contains_key("blackhole"@)
    &&& r[home()].sets.contains_key("blackhole6"@)
    &&& r[home()].chains.contains_key("drop_blackholed"@)
    &&& r[home()].chains["drop_blackholed"@].rules == drop_rules()
}

/// One statement more is one step more.
proof fn lemma_steps_push(before: Ruleset, lines: Seq<Seq<char>>, line: Seq<char>)
    ensures
        steps(before, lines.push(line)) == step(steps(before, lines), line),
{
    assert(lines.push(line).drop_last() =~= lines);
}

/// A statement on something in the table changes the table, if it is there.
pub proof fn lemma_step_at_home(
    before: Ruleset,
    line: Seq<char>,
    verb: Seq<char>,
    kind: Seq<char>,
    name: Seq<char>,
    args: Seq<Seq<char>>,
)
    requires
        before.contains_key(home()),
        words(line) == seq![verb, kind, "inet"@, "vortexwall"@, name] + args,
        kind != "table"@,
    ensures
        step(before, line) == before.insert(
            home(),
            table_step(before[home()], verb, kind, seq![name] + args),
        ),
{
    let w = words(line);
    assert(w[0] == verb && w[1] == kind && (w[2], w[3]) == home());
    assert(w.skip(4) =~= seq![name] + args);
}

/// The setup makes the table if there is none, sets it up, and touches no other one.
pub proof fn law_setup_effect(before: Ruleset)
    ensures
        run(before, setup_script()) == before.insert(
            home(),
            table_set_up(
                if before.contains_key(home()) {
                    before[home()]
                } else {
                    empty_table()
                },
            ),
        ),
{
    let l = setup_lines();
    let none = Seq::<char>::empty();
    let lines = split(setup_script(), is_char('\n'));
    law_setup_lines();
    law_setup_statements();
    lemma_keywords_differ();
    let start = Seq::<Seq<char>>::empty();
    let p0 = start.push(none);
    let p1 = p0.push(l[0]);
    let p2 = p1.push(l[1]);
    let p3 = p2.push(l[2]);
    let p4 = p3.push(l[3]);
    let p5 = p4.push(l[4]);
    let p6 = p5.push(l[5]);
    let p7 = p6.push(l[6]);
    assert(lines =~= p7.push(none));
    lemma_steps_push(before, start, none);
    lemma_steps_push(before, p0, l[0]);
    lemma_steps_push(before, p1, l[1]);
    lemma_steps_push(before, p2, l[2]);
    lemma_steps_push(before, p3, l[3]);
    lemma_steps_push(before, p4, l[4]);
    lemma_steps_push(before, p5, l[5]);
    lemma_steps_push(before, p6, l[6]);
    lemma_steps_push(before, p7, none);
    lemma_split_lacking(none, ' ');

    let r1 = steps(before, p1);
    let t1 = if before.contains_key(home()) {
        before[home()]
    } else {
        empty_table()
    };
    assert(steps(before, p0) == before);
    assert(r1 =~= before.insert(home(), t1));

    let decl4 = words("{ type ipv4_addr; flags timeout; }"@);
    let t2 = Table { sets: with_set(t1.sets, "blackhole"@, decl4), chains: t1.chains };
    lemma_step_at_home(r1, l[1], "add"@, "set"@, "blackhole"@, decl4);
    assert((seq!["blackhole"@] + decl4).skip(1) =~= decl4);
    let r2 = steps(before, p2);
    assert(r2 =~= before.insert(home(), t2));

    let decl6 = words("{ type ipv6_addr; flags timeout; }"@);
    let t3 = Table { sets: with_set(t2.sets, "blackhole6"@, decl6), chains: t1.chains };
    lemma_step_at_home(r2, l[2], "add"@, "set"@, "blackhole6"@, decl6);
    assert((seq!["blackhole6"@] + decl6).skip(1) =~= decl6);
    let r3 = steps(before, p3);
    assert(r3 =~= before.insert(home(), t3));

    let name = "drop_blackholed"@;
    let decl = words("{ type filter hook prerouting priority -300; policy accept; }"@);
    let t4 = Table { sets: t3.sets, chains: with_chain(t1.chains, name, decl) };
    lemma_step_at_home(r3, l[3], "add"@, "chain"@, name, decl);
    assert((seq![name] + decl).skip(1) =~= decl);
    let r4 = steps(before, p4);
    assert(r4 =~= before.insert(home(), t4));

    let t5 = Table { sets: t3.sets, chains: with_rules(t4.chains, name, Seq::empty()) };
    assert(words(l[4]) =~= seq!["flush"@, "chain"@, "inet"@, "vortexwall"@, name]
        + Seq::<Seq<char>>::empty());
    lemma_step_at_home(r4, l[4], "flush"@, "chain"@, name, Seq::empty());
    let r5 = steps(before, p5);
    assert(r5 =~= before.insert(home(), t5));

    let rule4 = words("ip saddr @blackhole drop"@);
    let t6 = Table { sets: t3.sets, chains: with_rules(t4.chains, name, seq![rule4]) };
    lemma_step_at_home(r5, l[5], "add"@, "rule"@, name, rule4);
    assert((seq![name] + rule4).skip(1) =~= rule4);
    assert(t5.chains[name].rules.push(rule4) =~= seq![rule4]);
    assert(with_rules(t5.chains, name, seq![rule4]) =~= t6.chains);
    let r6 = steps(before, p6);
    assert(r6 =~= before.insert(home(), t6));

    let rule6 = words("ip6 saddr @blackhole6 drop"@);
    let t7 = Table { sets: t3.sets, chains: with_rules(t4.chains, name, drop_rules()) };
    lemma_step_at_home(r6, l[6], "add"@, "rule"@, name, rule6);
    assert((seq![name] + rule6).skip(1) =~= rule6);
    assert(t6.chains[name].rules.push(rule6) =~= drop_rules());
    assert(with_rules(t6.chains, name, drop_rules()) =~= t7.chains);
    let r7 = steps(before, p7);
    assert(r7 =~= before.insert(home(), t7));
    assert(t7 == table_set_up(t1));
}

/// After the setup everything is set up: the chain has the two rules and no others,
/// whatever it had before.
pub proof fn law_setup_sets_up(before: Ruleset)
    ensures
        is_set_up(run(before, setup_script())),
{
    law_setup_effect(before);
}

/// The setup touches no other table, and in its own one no set that is there, with
/// what it holds, and no other chain.
pub proof fn law_setup_keeps_the_rest(before: Ruleset)
    ensures
        forall|t: (Seq<char>, Seq<char>)|
            t != home() ==> (#[trigger] run(before, setup_script()).contains_key(t)
                <==> before.contains_key(t)) && run(before, setup_script())[t] == before[t],
        before.contains_key(home()) ==> forall|set: Seq<char>| #[trigger]
            before[home()].sets.contains_key(set) ==> run(
                before,
                setup_script(),
            )[home()].sets.contains_key(set) && run(before, setup_script())[home()].sets[set]
                == before[home()].sets[set],
        before.contains_key(home()) ==> forall|chain: Seq<char>| #[trigger]
            before[home()].chains.contains_key(chain) && chain != "drop_blackholed"@ ==> run(
                before,
                setup_script(),
            )[home()].chains.contains_key(chain) && run(
                before,
                setup_script(),
            )[home()].chains[chain] == before[home()].chains[chain],
{
    law_setup_effect(before);
}

/// Where everything is set up, the setup changes nothing.
pub proof fn law_setup_changes_nothing_again(before: Ruleset)
    requires
        is_set_up(before),
    ensures
        run(before, setup_script()) == before,
{
    law_setup_effect(before);
    let table = before[home()];
    assert(with_rules(table.chains, "drop_blackholed"@, drop_rules()) =~= table.chains);
    assert(table_set_up(table) == table);
    assert(before.insert(home(), table) =~= before);
}

/// Setting up twice is setting up once.
pub proof fn law_setup_is_idempotent(before: Ruleset)
    ensures
        run(run(before, setup_script()), setup_script()) == run(before, setup_script()),
{
    law_setup_sets_up(before);
    law_setup_changes_nothing_again(run(before, setup_script()));
}

} // verus!
