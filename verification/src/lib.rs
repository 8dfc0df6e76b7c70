//! Padding and truncation of text and element buffers to a target width.
//!
//! A buffer is brought to an exact logical width: shorter buffers are filled
//! with a repeated symbol, longer buffers are cut, and an [`Alignment`]
//! decides on which side the filler goes or the excess is dropped. Text is
//! measured in Unicode scalar values, never in bytes.
//!
//! * [`pad`] and [`pad_to_buffer`] read a [`Source`] and build a new buffer
//!   or append to one that the caller hands in.
//! * [`pad_mut`] resizes a [`MutableSource`] in place.
//!
//! Every operation is described by the sequence of symbols it yields; the
//! module [`model`] holds these descriptions and the laws that follow from
//! them. The contracts speak of contents only. They say nothing of
//! capacities, and, like vstd, they treat memory as unbounded.

use vstd::prelude::*;

pub mod alignment;
pub mod model;
pub mod elements;
pub mod text;
pub mod source;
pub mod mutable_source;

pub use alignment::{Alignment, Pads};
pub use mutable_source::{MutableSource, Strategy};
pub use source::Source;

verus! {

/// Brings `source` to exactly `width` symbols and returns the result as a
/// new buffer: a longer source is cut, a shorter one is filled with
/// `symbol`, both as `mode` prescribes.
pub fn pad<S: Source>(source: S, width: usize, mode: Alignment, symbol: S::Symbol) -> (output:
    S::Output)
    ensures
        output@ == model::resized(source.symbols(), width as nat, mode, symbol),
        output@.len() == width,
        width == source.symbols().len() ==> output@ == source.symbols(),
{
    source.pad(width, mode, symbol)
}

/// Appends to `buffer` what [`pad`] would return for the same arguments.
/// What `buffer` held before stays in front, untouched.
pub fn pad_to_buffer<S: Source>(
    source: S,
    width: usize,
    mode: Alignment,
    symbol: S::Symbol,
    buffer: &mut S::Buffer,
)
    ensures
        final(buffer)@ == old(buffer)@ + model::resized(
            source.symbols(),
            width as nat,
            mode,
            symbol,
        ),
        final(buffer)@.len() == old(buffer)@.len() + width,
{
    source.pad_to_buffer(width, mode, symbol, buffer);
}

/// Brings `source` to exactly `width` symbols in place: a longer buffer is
/// cut, a shorter one is filled with `symbol`, both as `mode` prescribes.
pub fn pad_mut<S: MutableSource>(source: &mut S, width: usize, mode: Alignment, symbol: S::Symbol)
    ensures
        final(source).symbols() == model::resized(
            old(source).symbols(),
            width as nat,
            mode,
            symbol,
        ),
        final(source).symbols().len() == width,
        width == old(source).symbols().len() ==> final(source).symbols() == old(source).symbols(),
{
    source.pad(width, mode, symbol);
}

} // verus!
