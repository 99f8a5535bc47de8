//! Running git: the library decides what to run and what the answers mean;
//! the caller hands in the function that actually starts the process.

use vstd::prelude::*;
use crate::config::strs;
use crate::text::owned;

verus! {

pub open spec fn str_result(r: Result<String, String>) -> Result<Seq<char>, Seq<char>> {
    match r {
        Ok(s) => Ok(s@),
        Err(e) => Err(e@),
    }
}

/// `run` was given the arguments `args` and answered `out`.
pub open spec fn ran<F: Fn(Vec<String>) -> Result<String, String>>(
    run: F,
    args: Seq<Seq<char>>,
    out: Result<Seq<char>, Seq<char>>,
) -> bool {
    exists|a: Vec<String>, o: Result<String, String>|
        #[trigger] run.ensures((a,), o) && strs(a@) == args && str_result(o) == out
}

/// `run` was given `args` and answered with success.
pub open spec fn ran_ok<F: Fn(Vec<String>) -> Result<String, String>>(run: F, args: Seq<Seq<char>>) -> bool {
    exists|o: Seq<char>| #[trigger] ran(run, args, Ok(o))
}

/// `run` can be asked anything.
pub open spec fn callable<F: Fn(Vec<String>) -> Result<String, String>>(run: F) -> bool {
    forall|a: Vec<String>| run.requires((a,))
}

/// Runs git with `args` through `run`.
pub fn call<F: Fn(Vec<String>) -> Result<String, String>>(run: &F, args: Vec<String>) -> (r: Result<
    String,
    String,
>)
    requires
        callable(*run),
    ensures
        ran(*run, strs(args@), str_result(r)),
{
    let ghost a2 = args;
    let r = run(args);
    assert(run.ensures((a2,), r));
    r
}

/// An argument list made of literals and values.
pub struct Args {
    pub v: Vec<String>,
}

impl Args {
    pub fn new() -> (r: Args)
        ensures
            strs(r.v@) == Seq::<Seq<char>>::empty(),
    {
        let r = Args { v: Vec::new() };
        assert(strs(r.v@) =~= Seq::<Seq<char>>::empty());
        r
    }

    pub fn lit(&mut self, s: &str)
        ensures
            strs(final(self).v@) == strs(old(self).v@).push(s@),
    {
        let ghost ov = strs(self.v@);
        let o = owned(s);
        let ghost sv = o@;
        self.v.push(o);
        assert(strs(self.v@) =~= ov.push(sv));
    }

    pub fn val(&mut self, s: String)
        ensures
            strs(final(self).v@) == strs(old(self).v@).push(s@),
    {
        let ghost ov = strs(self.v@);
        let ghost sv = s@;
        self.v.push(s);
        assert(strs(self.v@) =~= ov.push(sv));
    }
}


/// `run` was given `args` and the standard input `input`, and answered `out`.
pub open spec fn ran_with_input<G: Fn(Vec<String>, String) -> Result<String, String>>(
    run: G,
    args: Seq<Seq<char>>,
    input: Seq<char>,
    out: Result<Seq<char>, Seq<char>>,
) -> bool {
    exists|a: Vec<String>, i: String, o: Result<String, String>|
        #[trigger] run.ensures((a, i), o) && strs(a@) == args && i@ == input && str_result(o) == out
}

pub open spec fn callable_with_input<G: Fn(Vec<String>, String) -> Result<String, String>>(run: G) -> bool {
    forall|a: Vec<String>, i: String| run.requires((a, i))
}

/// Runs git with `args` and `input` on its standard input.
pub fn call_with_input<G: Fn(Vec<String>, String) -> Result<String, String>>(
    run: &G,
    args: Vec<String>,
    input: String,
) -> (r: Result<String, String>)
    requires
        callable_with_input(*run),
    ensures
        ran_with_input(*run, strs(args@), input@, str_result(r)),
{
    let ghost a2 = args;
    let ghost i2 = input;
    let r = run(args, input);
    assert(run.ensures((a2, i2), r));
    r
}

/// The probe answered `b`.
pub open spec fn probed<H: Fn() -> bool>(probe: H, b: bool) -> bool {
    probe.ensures((), b)
}

pub open spec fn probe_callable<H: Fn() -> bool>(probe: H) -> bool {
    probe.requires(())
}

pub fn ask<H: Fn() -> bool>(probe: &H) -> (r: bool)
    requires
        probe_callable(*probe),
    ensures
        probed(*probe, r),
{
    probe()
}

} // verus!
