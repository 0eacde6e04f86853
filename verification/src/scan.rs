//! Folding a scoring step over a buffer.
//!
//! Every candidate is a state machine that looks at one input at a time, a
//! byte or a byte with what a decoder made of it, and either rejects it or
//! moves to a next state and contributes to the score. What a whole buffer
//! does to a candidate is the fold of that step, stopping at the first
//! rejected input.

use crate::data::{TableView, INVALID_CLASS};
use vstd::prelude::*;

verus! {

/// Largest magnitude any single byte can contribute to a score.
pub const STEP_LIMIT: i64 = 0x1_0000;

/// Largest number of bytes a candidate or a detector is shown in its life:
/// as many as can each contribute `STEP_LIMIT` to a score of sixty-four bits
/// without overflow.
pub const STREAM_LIMIT: u64 = 0x7FFF_FFFF_FFFF;

/// The byte that stands for the end of the stream: a space, which ends the
/// last word.
pub const END_OF_STREAM: u8 = 0x20;

/// What a single-byte candidate is shown after the last buffer of a stream.
pub open spec fn ending(last: bool) -> Seq<u8> {
    if last {
        seq![END_OF_STREAM]
    } else {
        Seq::empty()
    }
}

/// A scoring step over inputs of type `I`: `None` rejects the input,
/// otherwise the next state and the score the input contributes.
pub type Step<S, I> = spec_fn(S, I) -> Option<(S, int)>;

/// Adds `base` to the score of an outcome, leaving a rejection as it is.
pub open spec fn shift<S>(base: int, out: (S, Option<int>)) -> (S, Option<int>) {
    (
        out.0,
        match out.1 {
            Some(x) => Some(base + x),
            None => None,
        },
    )
}

/// The state reached and the score gathered by showing `inputs` in order to
/// a machine in state `s`. At the first rejected input the score is lost and
/// the state stays as that input found it.
pub open spec fn run<S, I>(step: Step<S, I>, s: S, inputs: Seq<I>) -> (S, Option<int>)
    decreases inputs.len(),
{
    if inputs.len() == 0 {
        (s, Some(0int))
    } else {
        match step(s, inputs[0]) {
            None => (s, None),
            Some(next) => shift(next.1, run(step, next.0, inputs.skip(1))),
        }
    }
}

/// What `run` gives when it is continued with `more` from where `first` left
/// off.
pub open spec fn resume<S, I>(step: Step<S, I>, first: (S, Option<int>), more: Seq<I>) -> (
    S,
    Option<int>,
) {
    match first.1 {
        Some(x) => shift(x, run(step, first.0, more)),
        None => first,
    }
}

/// The score of an executable outcome as a mathematical integer.
pub open spec fn as_int(r: Option<i64>) -> Option<int> {
    match r {
        Some(x) => Some(x as int),
        None => None,
    }
}

/// Showing `a` and then `b` is the same as showing their concatenation.
pub proof fn lemma_run_concat<S, I>(step: Step<S, I>, s: S, a: Seq<I>, b: Seq<I>)
    ensures
        run(step, s, a + b) == resume(step, run(step, s, a), b),
    decreases a.len(),
{
    if a.len() == 0 {
        assert(a + b =~= b);
        let out = run(step, s, b);
        assert(shift(0, out) == out);
    } else {
        assert((a + b)[0] == a[0]);
        assert((a + b).skip(1) =~= a.skip(1) + b);
        match step(s, a[0]) {
            None => {},
            Some(next) => {
                lemma_run_concat(step, next.0, a.skip(1), b);
            },
        }
    }
}

/// What a machine does with a single input is its step.
pub proof fn lemma_run_one<S, I>(step: Step<S, I>, s: S, input: I)
    ensures
        run(step, s, seq![input]) == match step(s, input) {
            None => (s, None::<int>),
            Some(next) => (next.0, Some(next.1)),
        },
{
    let one = seq![input];
    assert(one.skip(1).len() == 0);
    match step(s, input) {
        None => {},
        Some(next) => {
            assert(run(step, next.0, one.skip(1)) == (next.0, Some(0int)));
        },
    }
}

/// One more input continues the run from where it stood.
pub proof fn lemma_run_push<S, I>(step: Step<S, I>, s: S, inputs: Seq<I>, input: I)
    ensures
        run(step, s, inputs.push(input)) == match run(step, s, inputs).1 {
            None => run(step, s, inputs),
            Some(x) => match step(run(step, s, inputs).0, input) {
                None => (run(step, s, inputs).0, None::<int>),
                Some(next) => (next.0, Some(x + next.1)),
            },
        },
{
    assert(inputs.push(input) =~= inputs + seq![input]);
    lemma_run_concat(step, s, inputs, seq![input]);
    lemma_run_one(step, run(step, s, inputs).0, input);
}

/// Once an input is rejected, what follows it changes nothing.
pub proof fn lemma_run_rejected<S, I>(step: Step<S, I>, s: S, a: Seq<I>, b: Seq<I>)
    requires
        run(step, s, a).1 is None,
    ensures
        run(step, s, a + b) == run(step, s, a),
{
    lemma_run_concat(step, s, a, b);
}

/// Where rejection depends on the input alone, a buffer is rejected exactly
/// when it holds a rejected input.
pub proof fn lemma_run_rejects<S, I>(
    step: Step<S, I>,
    bad: spec_fn(I) -> bool,
    s: S,
    bytes: Seq<I>,
)
    requires
        forall|t: S, b: I| (#[trigger] step(t, b) is None) <==> bad(b),
    ensures
        run(step, s, bytes).1 is None <==> exists|i: int|
            0 <= i < bytes.len() && #[trigger] bad(bytes[i]),
    decreases bytes.len(),
{
    if bytes.len() == 0 {
    } else {
        let rest = bytes.skip(1);
        match step(s, bytes[0]) {
            None => {
                assert(bad(bytes[0]));
            },
            Some(next) => {
                lemma_run_rejects(step, bad, next.0, rest);
                if run(step, next.0, rest).1 is None {
                    let i = choose|i: int| 0 <= i < rest.len() && #[trigger] bad(rest[i]);
                    assert(bad(bytes[i + 1]));
                }
                if exists|i: int| 0 <= i < bytes.len() && #[trigger] bad(bytes[i]) {
                    let i = choose|i: int| 0 <= i < bytes.len() && #[trigger] bad(bytes[i]);
                    assert(i > 0);
                    assert(bad(rest[i - 1]));
                }
            },
        }
    }
}

/// A machine that rejects exactly the bytes its tables mark as invalid
/// rejects a buffer exactly when the buffer holds such a byte.
pub proof fn lemma_invalid_byte_rejects<S>(
    t: TableView,
    step: Step<S, u8>,
    s: S,
    bytes: Seq<u8>,
)
    requires
        forall|u: S, b: u8| (#[trigger] step(u, b) is None) <==> t.classify(b) == INVALID_CLASS,
    ensures
        run(step, s, bytes).1 is None <==> exists|i: int|
            0 <= i < bytes.len() && t.classify(#[trigger] bytes[i]) == INVALID_CLASS,
{
    let bad = |b: u8| t.classify(b) == INVALID_CLASS;
    lemma_run_rejects(step, bad, s, bytes);
    if exists|i: int| 0 <= i < bytes.len() && #[trigger] bad(bytes[i]) {
        let i = choose|i: int| 0 <= i < bytes.len() && #[trigger] bad(bytes[i]);
        assert(t.classify(bytes[i]) == INVALID_CLASS);
    }
    if exists|i: int| 0 <= i < bytes.len() && t.classify(#[trigger] bytes[i]) == INVALID_CLASS {
        let i = choose|i: int|
            0 <= i < bytes.len() && t.classify(#[trigger] bytes[i]) == INVALID_CLASS;
        assert(bad(bytes[i]));
    }
}

} // verus!
