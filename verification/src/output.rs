//! The three-way outcome every parser produces.

use vstd::prelude::*;

verus! {

/// The outcome of running a parser.
///
/// * `Success(value, start, end)` — the value produced from the input range
///   `[start, end)`, in character offsets.
/// * `Failure(position)` — recoverable; the cursor has been restored to
///   where the parser started, and enclosing alternation may try another
///   branch.
/// * `Fatal(position)` — unrecoverable; it propagates through every
///   enclosing alternation without further attempts, and the cursor may be
///   left mid-input.
#[derive(Debug)]
pub enum Output<T> {
    Success(T, usize, usize),
    Failure(usize),
    Fatal(usize),
}

} // verus!
