use vstd::prelude::*;

use crate::error::ParseError;

verus! {

/// The outcome of one parsing step at a given position of the input.
///
/// `Done(value, next)` consumed the input up to `next`. `Soft` is a mismatch
/// after which a sibling alternative may be tried at the same position.
/// `Hard` is a fatal failure that aborts the whole parse. Positions, those of
/// the error included, count characters here; `Command::parse` reports them
/// as byte offsets.
#[derive(Debug)]
pub enum Step<T> {
    Done(T, usize),
    Soft,
    Hard(ParseError),
}

} // verus!
