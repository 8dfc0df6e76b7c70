//! Mutable sources: buffers that are padded or cut in place.

use vstd::prelude::*;
use crate::alignment::Alignment;
use crate::elements::{append_elements, append_filler, release_spare, shift_right};
use crate::model::{filler, padded, resized, truncated};
use crate::source::padded_capacity;
use crate::text::repeated;
use crate::text::{
    append_run, append_symbols, encode_symbol, lemma_bytes_split, lemma_encode_injective,
    lemma_padded_bytes, lemma_repeated_len, offset_of_symbol, remove_front, text_from_bytes,
    write_run,
};
use vstd::string::*;
use vstd::utf8::*;

verus! {

/// How a buffer that is too short is filled in place. Both ways lead to the
/// same content; they differ in how they use memory.
#[derive(Debug, Clone, Copy, PartialEq, Eq, Structural)]
pub enum Strategy {
    /// Builds the result in a fresh buffer that then replaces the old one.
    Splice,
    /// Grows the buffer, moves its content to the right by the width of the
    /// left filler and writes the left filler into the gap.
    Shift,
}

impl Default for Strategy {
    fn default() -> (strategy: Strategy)
        ensures
            strategy == Strategy::Splice,
    {
        Strategy::Splice
    }
}

/// A buffer of symbols that can be brought to a given width in place.
///
/// * `Symbol` is one unit of the buffer and the type of the filler.
/// * `Buffer` is the buffer that holds the symbols.
pub trait MutableSource {
    type Symbol;

    type Buffer;

    /// The symbols of this buffer, in order.
    spec fn symbols(&self) -> Seq<Self::Symbol>;

    /// Brings this buffer to exactly `width` symbols: cut where it is
    /// longer, untouched where it fits, filled with `symbol` where it is
    /// shorter.
    fn pad(&mut self, width: usize, mode: Alignment, symbol: Self::Symbol)
        ensures
            final(self).symbols() == resized(old(self).symbols(), width as nat, mode, symbol),
            final(self).symbols().len() == width,
            width == old(self).symbols().len() ==> final(self).symbols() == old(self).symbols(),
    ;
}

/// Cuts `buffer` down to the `width` elements that `mode` keeps and gives
/// back the capacity that is no longer used. The buffer must hold at least
/// `width` elements.
pub fn truncate_elements_in_place<T: Copy>(buffer: &mut Vec<T>, width: usize, mode: Alignment)
    requires
        width <= old(buffer)@.len(),
    ensures
        final(buffer)@ == truncated(old(buffer)@, width as nat, mode),
        final(buffer)@.len() == width,
{
    let len = buffer.len();
    let start = mode.pads(len - width).left();
    if start > 0 {
        let mut i: usize = 0;
        while i < width
            invariant
                start + width <= len,
                buffer@.len() == len,
                old(buffer)@.len() == len,
                i <= width,
                forall|k: int| 0 <= k < i ==> buffer@[k] == old(buffer)@[k + start],
                forall|k: int| i <= k < buffer@.len() ==> buffer@[k] == old(buffer)@[k],
            decreases width - i,
        {
            let moved = buffer[i + start];
            buffer[i] = moved;
            i += 1;
        }
    }
    buffer.truncate(width);
    release_spare(buffer);
    assert(buffer@ =~= truncated(old(buffer)@, width as nat, mode));
}

/// Fills `buffer` up to `width` elements by building the result beside it:
/// left filler, the old content, right filler. The buffer must not hold
/// more than `width` elements.
pub fn splice_elements<T: Copy>(buffer: &mut Vec<T>, width: usize, mode: Alignment, symbol: T)
    requires
        old(buffer)@.len() <= width,
    ensures
        final(buffer)@ == padded(old(buffer)@, width as nat, mode, symbol),
        final(buffer)@.len() == width,
{
    let pads = mode.pads(width - buffer.len());
    let mut spliced: Vec<T> = Vec::with_capacity(width);
    append_filler(&mut spliced, symbol, pads.left());
    append_elements(&mut spliced, buffer.as_slice());
    append_filler(&mut spliced, symbol, pads.right());
    release_spare(&mut spliced);
    *buffer = spliced;
}

/// Fills `buffer` up to `width` elements within its own storage: the right
/// filler is appended, the buffer grows by the width of the left filler, the
/// old content and the right filler move to the right by that width, and the
/// left filler is written into the gap. The buffer must not hold more than
/// `width` elements.
pub fn shift_elements<T: Copy>(buffer: &mut Vec<T>, width: usize, mode: Alignment, symbol: T)
    requires
        old(buffer)@.len() <= width,
    ensures
        final(buffer)@ == padded(old(buffer)@, width as nat, mode, symbol),
        final(buffer)@.len() == width,
{
    let len = buffer.len();
    let pads = mode.pads(width - len);
    let left = pads.left();
    let right = pads.right();
    buffer.reserve(width - len);
    append_filler(buffer, symbol, right);
    append_filler(buffer, symbol, left);
    let ghost block = old(buffer)@ + filler(symbol, right as nat);
    assert(buffer@.subrange(0, len + right) =~= block);
    shift_right(buffer, left);
    let mut j: usize = 0;
    while j < left
        invariant
            j <= left,
            block.len() == len + right,
            buffer@.len() == len + right + left,
            forall|k: int| 0 <= k < j ==> buffer@[k] == symbol,
            forall|k: int| 0 <= k < len + right ==> #[trigger] buffer@[k + left] == block[k],
        decreases left - j,
    {
        buffer[j] = symbol;
        j += 1;
    }
    assert(buffer@ =~= padded(old(buffer)@, width as nat, mode, symbol)) by {
        let goal = padded(old(buffer)@, width as nat, mode, symbol);
        assert(goal.len() == buffer@.len());
        assert forall|k: int| 0 <= k < buffer@.len() implies buffer@[k] == goal[k] by {
            if k >= left {
                assert(buffer@[(k - left) + left] == block[k - left]);
            }
        }
    }
}

/// Brings `buffer` to exactly `width` elements in place, filling it by the
/// given strategy where it is too short. The result does not depend on the
/// strategy.
pub fn pad_elements_in_place<T: Copy>(
    buffer: &mut Vec<T>,
    width: usize,
    mode: Alignment,
    symbol: T,
    strategy: Strategy,
)
    ensures
        final(buffer)@ == resized(old(buffer)@, width as nat, mode, symbol),
        final(buffer)@.len() == width,
        width == old(buffer)@.len() ==> final(buffer)@ == old(buffer)@,
{
    if width < buffer.len() {
        truncate_elements_in_place(buffer, width, mode);
    } else if width > buffer.len() {
        match strategy {
            Strategy::Splice => splice_elements(buffer, width, mode, symbol),
            Strategy::Shift => shift_elements(buffer, width, mode, symbol),
        }
    }
}

/// Cuts `text` down to the `width` scalar values that `mode` keeps and
/// gives back the capacity that is no longer used. The text must hold at
/// least `width` scalar values.
pub fn truncate_text_in_place(text: &mut String, width: usize, mode: Alignment)
    requires
        width <= old(text)@.len(),
    ensures
        final(text)@ == truncated(old(text)@, width as nat, mode),
        final(text)@.len() == width,
{
    let len = text.as_str().unicode_len();
    let start = mode.pads(len - width).left();
    let from = offset_of_symbol(text.as_str(), start);
    proof {
        lemma_bytes_split(text@, start as nat);
    }
    if from > 0 {
        remove_front(text, from);
    } else {
        assert(encode_utf8(text@).subrange(0, encode_utf8(text@).len() as int) =~= encode_utf8(
            text@,
        ));
    }
    proof {
        lemma_encode_injective(text@, old(text)@.subrange(start as int, len as int));
    }
    let kept = offset_of_symbol(text.as_str(), width);
    let ghost tail = text@;
    text.truncate(kept);
    proof {
        lemma_bytes_split(tail, width as nat);
        lemma_encode_injective(text@, tail.subrange(0, width as int));
        assert(text@ =~= truncated(old(text)@, width as nat, mode));
    }
    text.shrink_to_fit();
}

/// Fills `text` up to `width` scalar values by building the result beside
/// it: left filler, the old content, right filler. The text must not hold
/// more than `width` scalar values.
pub fn splice_text(text: &mut String, width: usize, mode: Alignment, symbol: char)
    requires
        old(text)@.len() <= width,
    ensures
        final(text)@ == padded(old(text)@, width as nat, mode, symbol),
        final(text)@.len() == width,
{
    let len = text.as_str().unicode_len();
    let pads = mode.pads(width - len);
    let mut spliced = String::new();
    append_symbols(&mut spliced, symbol, pads.left());
    spliced.append(text.as_str());
    append_symbols(&mut spliced, symbol, pads.right());
    spliced.shrink_to_fit();
    *text = spliced;
}

/// Fills `text` up to `width` scalar values within its own bytes: the
/// encoded right filler is appended, the bytes grow by the width of the
/// encoded left filler, the old bytes and the right filler move to the
/// right by that width, and the left filler is encoded into the gap. The
/// bytes that result are valid UTF-8 and become the text again.
///
/// The text must not hold more than `width` scalar values, and the padded
/// text must not take more bytes than a `usize` can count.
/// [`pad_text_in_place`] tests both before it takes this way.
pub fn shift_text(text: &mut String, width: usize, mode: Alignment, symbol: char)
    requires
        old(text)@.len() <= width,
        encode_utf8(padded(old(text)@, width as nat, mode, symbol)).len() <= usize::MAX,
    ensures
        final(text)@ == padded(old(text)@, width as nat, mode, symbol),
        final(text)@.len() == width,
{
    let len = text.as_str().unicode_len();
    let pads = mode.pads(width - len);
    let (unit, unit_len) = encode_symbol(symbol);
    let ghost piece = encode_scalar(symbol as u32);
    let ghost goal = padded(old(text)@, width as nat, mode, symbol);
    proof {
        lemma_padded_bytes(old(text)@, width as nat, mode, symbol);
        lemma_repeated_len(piece, pads.0 as nat);
        lemma_repeated_len(piece, pads.1 as nat);
    }
    let left_bytes = pads.left() * unit_len;
    let right_bytes = pads.right() * unit_len;
    let mut taken = String::new();
    core::mem::swap(text, &mut taken);
    let mut bytes = taken.into_bytes();
    bytes.reserve(left_bytes + right_bytes);
    append_run(&mut bytes, &unit, unit_len, pads.right());
    let ghost block = bytes@;
    append_filler(&mut bytes, 0u8, left_bytes);
    shift_right(&mut bytes, left_bytes);
    write_run(&mut bytes, &unit, unit_len, pads.left());
    proof {
        let front = repeated(piece, pads.0 as nat);
        assert(bytes@ =~= front + block) by {
            assert forall|k: int| 0 <= k < bytes@.len() implies bytes@[k] == (front + block)[k] by {
                if k < left_bytes {
                    assert(bytes@.subrange(0, left_bytes as int)[k] == front[k]);
                } else {
                    assert(bytes@[(k - left_bytes) + left_bytes] == block[k - left_bytes]);
                }
            }
        }
        assert(bytes@ =~= encode_utf8(goal));
        encode_utf8_valid_utf8(goal);
    }
    match text_from_bytes(bytes) {
        Some(shifted) => {
            proof {
                lemma_encode_injective(shifted@, goal);
            }
            *text = shifted;
        },
        // Not reached: the bytes are the encoding of the padded text.
        None => {},
    }
}

/// Brings `text` to exactly `width` scalar values in place, filling it by
/// the given strategy where it is too short. The result does not depend on
/// the strategy.
pub fn pad_text_in_place(
    text: &mut String,
    width: usize,
    mode: Alignment,
    symbol: char,
    strategy: Strategy,
)
    ensures
        final(text)@ == resized(old(text)@, width as nat, mode, symbol),
        final(text)@.len() == width,
        width == old(text)@.len() ==> final(text)@ == old(text)@,
{
    let len = text.as_str().unicode_len();
    if width < len {
        truncate_text_in_place(text, width, mode);
    } else if width > len {
        match strategy {
            Strategy::Splice => splice_text(text, width, mode, symbol),
            Strategy::Shift => {
                let text_bytes = text.as_str().as_bytes().len();
                let fits = padded_capacity(text_bytes, width - len, symbol.len_utf8());
                proof {
                    lemma_padded_bytes(text@, width as nat, mode, symbol);
                }
                if fits.is_some() {
                    shift_text(text, width, mode, symbol)
                } else {
                    splice_text(text, width, mode, symbol)
                }
            },
        }
    }
}

impl MutableSource for String {
    type Symbol = char;

    type Buffer = String;

    open spec fn symbols(&self) -> Seq<char> {
        self@
    }

    fn pad(&mut self, width: usize, mode: Alignment, symbol: char) {
        pad_text_in_place(self, width, mode, symbol, Strategy::default())
    }
}

impl<T: Copy> MutableSource for Vec<T> {
    type Symbol = T;

    type Buffer = Vec<T>;

    open spec fn symbols(&self) -> Seq<T> {
        self@
    }

    fn pad(&mut self, width: usize, mode: Alignment, symbol: T) {
        pad_elements_in_place(self, width, mode, symbol, Strategy::default())
    }
}

} // verus!
