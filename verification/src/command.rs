//! Programs to run, and what came of running them.

use vstd::prelude::*;

verus! {

/// A program to run, as mathematics.
#[verifier::ext_equal]
pub struct Command {
    pub program: Seq<char>,
    pub args: Seq<Seq<char>>,
    pub stdin: Option<Seq<char>>,
}

/// A program to run, with its arguments and with what it is fed.
#[derive(Debug, PartialEq, Eq)]
pub struct Invocation {
    pub program: String,
    pub args: Vec<String>,
    /// What is written to its standard input, if anything is.
    pub stdin: Option<String>,
}

/// The views of strings.
pub open spec fn strings(v: Seq<String>) -> Seq<Seq<char>> {
    Seq::new(v.len(), |i: int| v[i]@)
}

/// The views of string slices.
pub open spec fn strs(v: Seq<&str>) -> Seq<Seq<char>> {
    Seq::new(v.len(), |i: int| v[i]@)
}

impl View for Invocation {
    type V = Command;

    open spec fn view(&self) -> Command {
        Command {
            program: self.program@,
            args: strings(self.args@),
            stdin: match self.stdin {
                Some(text) => Some(text@),
                None => None,
            },
        }
    }
}

impl Invocation {
    /// The program with these arguments, fed nothing.
    pub fn new(program: &str, args: &Vec<&str>) -> (r: Invocation)
        ensures
            r@ == (Command { program: program@, args: strs(args@), stdin: None }),
            r.program@ == program@,
            r.args@.len() == args@.len(),
            forall|i: int| 0 <= i < args@.len() ==> (#[trigger] r.args@[i])@ == args@[i]@,
            r.stdin is None,
    {
        let mut list: Vec<String> = Vec::new();
        let mut i: usize = 0;
        while i < args.len()
            invariant
                i <= args.len(),
                strings(list@) == strs(args@).take(i as int),
            decreases args.len() - i,
        {
            let ghost before = list@;
            list.push(args[i].to_string());
            assert(strings(list@) =~= strings(before).push(args@[i as int]@));
            assert(strs(args@).take(i as int + 1) =~= strs(args@).take(i as int).push(
                args@[i as int]@,
            ));
            i += 1;
        }
        assert(strs(args@).take(args@.len() as int) =~= strs(args@));
        assert forall|i: int| 0 <= i < args@.len() implies (#[trigger] list@[i])@ == args@[i]@ by {
            assert(strings(list@)[i] == strs(args@)[i]);
        }
        assert(strings(list@).len() == strs(args@).len());
        Invocation { program: program.to_string(), args: list, stdin: None }
    }
}

/// What came of running a program to its end.
#[derive(Debug)]
pub struct Output {
    /// Whether it exited with status zero.
    pub success: bool,
    pub stdout: Vec<u8>,
    pub stderr: Vec<u8>,
}

/// A program to run is viewed as it is: every argument, in its place, and all that it is
/// fed.
pub proof fn law_invocation_is_viewed_as_it_is(i: Invocation, k: int)
    ensures
        i@.program == i.program@,
        i@.args.len() == i.args@.len(),
        0 <= k < i.args@.len() ==> i@.args[k] == i.args@[k]@,
        i.stdin is None <==> i@.stdin is None,
        i.stdin is Some ==> i@.stdin->0 == i.stdin->0@,
{
}

/// Strings are viewed one by one.
pub proof fn law_strings(v: Seq<String>, w: Seq<&str>, k: int)
    ensures
        strings(v).len() == v.len(),
        0 <= k < v.len() ==> strings(v)[k] == v[k]@,
        strs(w).len() == w.len(),
        0 <= k < w.len() ==> strs(w)[k] == w[k]@,
{
}

} // verus!
