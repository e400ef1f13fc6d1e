//! Formulas over floating-point values.
//!
//! The arithmetic itself is the caller's: functions for single operations, which
//! the formulas here put together.

use crate::binary::{Binary32, Binary64};
use vstd::prelude::*;

verus! {

/// An operation on two values.
#[derive(Clone, Copy, Debug, PartialEq, Eq, Structural)]
pub enum Operation {
    /// The sum.
    Add,
    /// The first less the second.
    Subtract,
    /// The product.
    Multiply,
    /// The first divided by the second.
    Divide,
}

/// Operations on binary32 values, as a function.
pub type NarrowFn = spec_fn(Operation, Binary32, Binary32) -> Binary32;

/// A function of one binary32 value.
pub type RootFn = spec_fn(Binary32) -> Binary32;

/// Operations on binary64 values, as a function.
pub type WideFn = spec_fn(Operation, Binary64, Binary64) -> Binary64;

/// The binary64 value of a count, as a function.
pub type CountFn = spec_fn(usize) -> Binary64;

/// `narrow` accepts everything, and gives equal arguments equal results.
pub open spec fn is_narrow<N: Fn(Operation, Binary32, Binary32) -> Binary32>(narrow: N) -> bool {
    &&& forall|op: Operation, a: Binary32, b: Binary32| #[trigger] call_requires(narrow, (op, a, b))
    &&& forall|op: Operation, a: Binary32, b: Binary32, x: Binary32, y: Binary32| #[trigger]
        call_ensures(narrow, (op, a, b), x) && #[trigger] call_ensures(narrow, (op, a, b), y) ==> x == y
}

/// Whatever `narrow` returns is what `function` gives.
pub open spec fn computes_narrow<N: Fn(Operation, Binary32, Binary32) -> Binary32>(
    narrow: N,
    function: NarrowFn,
) -> bool {
    forall|op: Operation, a: Binary32, b: Binary32, result: Binary32| #[trigger]
        call_ensures(narrow, (op, a, b), result) ==> result == function(op, a, b)
}

/// Operations on binary32 values that give equal arguments equal results compute some function.
pub proof fn law_narrow_computes_a_function<N: Fn(Operation, Binary32, Binary32) -> Binary32>(narrow: N)
    requires
        is_narrow(narrow),
    ensures
        exists|function: NarrowFn| computes_narrow(narrow, function),
{
    let function: NarrowFn = |op: Operation, a: Binary32, b: Binary32|
        choose|result: Binary32| call_ensures(narrow, (op, a, b), result);
    assert(computes_narrow(narrow, function));
}

/// `root` accepts everything, and gives equal arguments equal results.
pub open spec fn is_root<R: Fn(Binary32) -> Binary32>(root: R) -> bool {
    &&& forall|a: Binary32| #[trigger] call_requires(root, (a,))
    &&& forall|a: Binary32, x: Binary32, y: Binary32| #[trigger]
        call_ensures(root, (a,), x) && #[trigger] call_ensures(root, (a,), y) ==> x == y
}

/// Whatever `root` returns is what `function` gives.
pub open spec fn computes_root<R: Fn(Binary32) -> Binary32>(
    root: R,
    function: RootFn,
) -> bool {
    forall|a: Binary32, result: Binary32| #[trigger]
        call_ensures(root, (a,), result) ==> result == function(a)
}

/// Square roots that give equal arguments equal results compute some function.
pub proof fn law_root_computes_a_function<R: Fn(Binary32) -> Binary32>(root: R)
    requires
        is_root(root),
    ensures
        exists|function: RootFn| computes_root(root, function),
{
    let function: RootFn = |a: Binary32|
        choose|result: Binary32| call_ensures(root, (a,), result);
    assert(computes_root(root, function));
}

/// `wide` accepts everything, and gives equal arguments equal results.
pub open spec fn is_wide<W: Fn(Operation, Binary64, Binary64) -> Binary64>(wide: W) -> bool {
    &&& forall|op: Operation, a: Binary64, b: Binary64| #[trigger] call_requires(wide, (op, a, b))
    &&& forall|op: Operation, a: Binary64, b: Binary64, x: Binary64, y: Binary64| #[trigger]
        call_ensures(wide, (op, a, b), x) && #[trigger] call_ensures(wide, (op, a, b), y) ==> x == y
}

/// Whatever `wide` returns is what `function` gives.
pub open spec fn computes_wide<W: Fn(Operation, Binary64, Binary64) -> Binary64>(
    wide: W,
    function: WideFn,
) -> bool {
    forall|op: Operation, a: Binary64, b: Binary64, result: Binary64| #[trigger]
        call_ensures(wide, (op, a, b), result) ==> result == function(op, a, b)
}

/// Operations on binary64 values that give equal arguments equal results compute some function.
pub proof fn law_wide_computes_a_function<W: Fn(Operation, Binary64, Binary64) -> Binary64>(wide: W)
    requires
        is_wide(wide),
    ensures
        exists|function: WideFn| computes_wide(wide, function),
{
    let function: WideFn = |op: Operation, a: Binary64, b: Binary64|
        choose|result: Binary64| call_ensures(wide, (op, a, b), result);
    assert(computes_wide(wide, function));
}

/// `count` accepts everything, and gives equal arguments equal results.
pub open spec fn is_count<C: Fn(usize) -> Binary64>(count: C) -> bool {
    &&& forall|n: usize| #[trigger] call_requires(count, (n,))
    &&& forall|n: usize, x: Binary64, y: Binary64| #[trigger]
        call_ensures(count, (n,), x) && #[trigger] call_ensures(count, (n,), y) ==> x == y
}

/// Whatever `count` returns is what `function` gives.
pub open spec fn computes_count<C: Fn(usize) -> Binary64>(
    count: C,
    function: CountFn,
) -> bool {
    forall|n: usize, result: Binary64| #[trigger]
        call_ensures(count, (n,), result) ==> result == function(n)
}

/// Values of counts that give equal arguments equal results compute some function.
pub proof fn law_count_computes_a_function<C: Fn(usize) -> Binary64>(count: C)
    requires
        is_count(count),
    ensures
        exists|function: CountFn| computes_count(count, function),
{
    let function: CountFn = |n: usize|
        choose|result: Binary64| call_ensures(count, (n,), result);
    assert(computes_count(count, function));
}

/// The squares of `samples`, added up from the first to the last.
pub open spec fn sum_of_squares(narrow: NarrowFn, samples: Seq<Binary32>) -> Binary32
    decreases samples.len(),
{
    if samples.len() == 0 {
        Binary32 { bits: 0 }
    } else {
        narrow(
            Operation::Add,
            sum_of_squares(narrow, samples.drop_last()),
            narrow(Operation::Multiply, samples.last(), samples.last()),
        )
    }
}

/// The root of the mean of the squares of `samples`, of which there are `length`.
pub open spec fn root_mean_square(
    narrow: NarrowFn,
    root: RootFn,
    samples: Seq<Binary32>,
    length: Binary32,
) -> Binary32 {
    root(narrow(Operation::Divide, sum_of_squares(narrow, samples), length))
}

/// `level` is the root of the mean of the squares of `samples`, whichever functions
/// `narrow` and `root` compute.
pub open spec fn is_rms<N, R>(
    samples: Seq<Binary32>,
    length: Binary32,
    narrow: N,
    root: R,
    level: Binary32,
) -> bool where N: Fn(Operation, Binary32, Binary32) -> Binary32, R: Fn(Binary32) -> Binary32 {
    forall|n: NarrowFn, r: RootFn| #[trigger]
        computes_narrow(narrow, n) && #[trigger] computes_root(root, r) ==> level
            == root_mean_square(n, r, samples, length)
}

/// The root of the mean of the squares of `samples`, of which there are `length`.
///
/// The caller supplies the operations and the square root.
pub fn rms<N, R>(samples: &[Binary32], length: Binary32, narrow: &N, root: &R) -> (level:
    Binary32) where
    N: Fn(Operation, Binary32, Binary32) -> Binary32,
    R: Fn(Binary32) -> Binary32,

    requires
        is_narrow(*narrow),
        is_root(*root),
    ensures
        forall|n: NarrowFn, r: RootFn| #[trigger]
            computes_narrow(*narrow, n) && #[trigger] computes_root(*root, r) ==> level
                == root_mean_square(n, r, samples@, length),
        is_rms(samples@, length, *narrow, *root, level),
{
    let mut sum = Binary32 { bits: 0 };
    let mut i: usize = 0;
    while i < samples.len()
        invariant
            is_narrow(*narrow),
            i <= samples@.len(),
            forall|n: NarrowFn| #[trigger]
                computes_narrow(*narrow, n) ==> sum == sum_of_squares(n, samples@.take(i as int)),
        decreases samples@.len() - i,
    {
        let sample = samples[i];
        let square = narrow(Operation::Multiply, sample, sample);
        sum = narrow(Operation::Add, sum, square);
        assert(samples@.take(i + 1).drop_last() == samples@.take(i as int));
        i = i + 1;
    }
    assert(samples@.take(i as int) == samples@);
    let mean = narrow(Operation::Divide, sum, length);
    root(mean)
}

/// How much time passes from one sample to the next, where `total` samples lie
/// between the times `start` and `end`.
pub open spec fn sample_spacing(
    wide: WideFn,
    count: CountFn,
    start: Binary64,
    end: Binary64,
    total: int,
) -> Binary64 {
    wide(Operation::Divide, wide(Operation::Subtract, end, start), count(total as usize))
}

/// The time of sample number `sample`, where `total` samples lie evenly between
/// the times `start` and `end`.
pub open spec fn sample_time(
    wide: WideFn,
    count: CountFn,
    start: Binary64,
    end: Binary64,
    total: int,
    sample: int,
) -> Binary64 {
    wide(
        Operation::Add,
        start,
        wide(
            Operation::Multiply,
            count(sample as usize),
            sample_spacing(wide, count, start, end, total),
        ),
    )
}

/// How much time passes from one sample to the next.
pub(crate) fn spacing<W, C>(
    start: Binary64,
    end: Binary64,
    total: usize,
    wide: &W,
    count: &C,
) -> (spacing: Binary64) where
    W: Fn(Operation, Binary64, Binary64) -> Binary64,
    C: Fn(usize) -> Binary64,

    requires
        is_wide(*wide),
        is_count(*count),
    ensures
        forall|w: WideFn, c: CountFn| #[trigger]
            computes_wide(*wide, w) && #[trigger] computes_count(*count, c) ==> spacing
                == sample_spacing(w, c, start, end, total as int),
{
    let span = wide(Operation::Subtract, end, start);
    wide(Operation::Divide, span, count(total))
}

/// The time of sample number `sample`, counted from `start` in steps of `spacing`.
pub(crate) fn time_of_sample<W, C>(
    start: Binary64,
    spacing: Binary64,
    sample: usize,
    wide: &W,
    count: &C,
) -> (time: Binary64) where
    W: Fn(Operation, Binary64, Binary64) -> Binary64,
    C: Fn(usize) -> Binary64,

    requires
        is_wide(*wide),
        is_count(*count),
    ensures
        forall|w: WideFn, c: CountFn| #[trigger]
            computes_wide(*wide, w) && #[trigger] computes_count(*count, c) ==> time == w(
                Operation::Add,
                start,
                w(Operation::Multiply, c(sample), spacing),
            ),
{
    let passed = wide(Operation::Multiply, count(sample), spacing);
    wide(Operation::Add, start, passed)
}

} // verus!
