//! Searching for the pair of inputs that makes a program produce a target value.
//!
//! The program takes its two inputs in memory words 1 (the noun) and 2 (the
//! verb) and leaves its result in word 0.

use vstd::prelude::*;
use crate::intcode::{run_spec, IntcodeComputer, STEP_LIMIT};

verus! {

/// Whether `program`, given `noun` and `verb`, halts with `target` in word 0.
pub open spec fn produces(program: Seq<i32>, target: i32, noun: i32, verb: i32) -> bool {
    let outcome = run_spec(program.update(1, noun).update(2, verb), 0, STEP_LIMIT as nat);
    &&& outcome.result is Ok
    &&& outcome.mem.len() > 0
    &&& outcome.mem[0] == target
}

/// Whether the pair `(n2, v2)` comes before `(n1, v1)`, nouns first.
pub open spec fn pair_before(n2: i32, v2: i32, n1: i32, v1: i32) -> bool {
    n2 < n1 || (n2 == n1 && v2 < v1)
}

/// Whether `program` produces `target` for the pair `(noun, verb)`: each run
/// gets its own copy of the program.
fn try_pair(program: &Vec<i32>, target: i32, noun: i32, verb: i32) -> (r: bool)
    requires
        program@.len() >= 3,
    ensures
        r == produces(program@, target, noun, verb),
{
    let mut computer = IntcodeComputer::new(program.clone());
    assert(computer.program@ =~= program@);
    computer.set(1, noun);
    computer.set(2, verb);
    match computer.run() {
        Ok(_) => computer.program.len() > 0 && computer.program[0] == target,
        Err(_) => false,
    }
}

/// The first pair `(noun, verb)`, each in `0..100` and nouns first, for which
/// `program` halts with `target` in word 0; `None` when no pair does.
pub fn solve_inputs(program: Vec<i32>, target: i32) -> (r: Option<(i32, i32)>)
    requires
        program@.len() >= 3,
    ensures
        match r {
            Some((noun, verb)) => {
                &&& 0 <= noun < 100
                &&& 0 <= verb < 100
                &&& produces(program@, target, noun, verb)
                &&& forall|n: i32, v: i32|
                    0 <= n < 100 && 0 <= v < 100 && pair_before(n, v, noun, verb) ==> !produces(
                        program@,
                        target,
                        n,
                        v,
                    )
            },
            None => forall|n: i32, v: i32|
                0 <= n < 100 && 0 <= v < 100 ==> !produces(program@, target, n, v),
        },
{
    let mut noun: i32 = 0;
    while noun < 100
        invariant
            0 <= noun <= 100,
            program@.len() >= 3,
            forall|n: i32, v: i32| 0 <= n < noun && 0 <= v < 100 ==> !produces(program@, target, n, v),
        decreases 100 - noun,
    {
        let mut verb: i32 = 0;
        while verb < 100
            invariant
                0 <= noun < 100,
                0 <= verb <= 100,
                program@.len() >= 3,
                forall|n: i32, v: i32|
                    0 <= n < noun && 0 <= v < 100 ==> !produces(program@, target, n, v),
                forall|v: i32| 0 <= v < verb ==> !produces(program@, target, noun, v),
            decreases 100 - verb,
        {
            if try_pair(&program, target, noun, verb) {
                return Some((noun, verb));
            }
            verb = verb + 1;
        }
        noun = noun + 1;
    }
    None
}

} // verus!
