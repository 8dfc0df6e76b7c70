//! Read-only sources: buffers that are padded or cut into a new buffer.

use vstd::prelude::*;
use vstd::slice::{slice_subrange, slice_to_vec};
use crate::alignment::Alignment;
use crate::elements::{append_elements, append_filler, release_spare};
use crate::model::{resized, truncated};
use crate::text::{
    append_symbols, lemma_bytes_split, lemma_encode_injective, offset_of_symbol,
};
use vstd::string::*;
use vstd::utf8::*;

verus! {

/// A read-only buffer of symbols that can be brought to a given width.
///
/// * `Symbol` is one unit of the buffer and the type of the filler.
/// * `Buffer` is the growable buffer that [`Source::pad_to_buffer`] appends to.
/// * `Output` is the owned buffer that [`Source::pad`] returns.
/// * `Slice` is the borrowed view that [`Source::truncate_to_fit`] returns.
pub trait Source {
    type Symbol;

    type Buffer: View<V = Seq<Self::Symbol>>;

    type Output: View<V = Seq<Self::Symbol>>;

    type Slice: ?Sized + View<V = Seq<Self::Symbol>>;

    /// The symbols of this buffer, in order.
    spec fn symbols(&self) -> Seq<Self::Symbol>;

    /// Borrows the `width` symbols that a cut under `mode` keeps. Nothing is
    /// copied. The buffer must hold at least `width` symbols.
    fn truncate_to_fit(&self, width: usize, mode: Alignment) -> (slice: &Self::Slice)
        requires
            width <= self.symbols().len(),
        ensures
            slice@ == truncated(self.symbols(), width as nat, mode),
            slice@.len() == width,
    ;

    /// Returns a new buffer of exactly `width` symbols: this buffer cut
    /// where it is longer, copied where it fits, and filled with `symbol`
    /// where it is shorter.
    fn pad(&self, width: usize, mode: Alignment, symbol: Self::Symbol) -> (output: Self::Output)
        ensures
            output@ == resized(self.symbols(), width as nat, mode, symbol),
            output@.len() == width,
            width == self.symbols().len() ==> output@ == self.symbols(),
    ;

    /// Appends to `buffer` what [`Source::pad`] returns for the same
    /// arguments. What `buffer` held before stays in front, untouched.
    fn pad_to_buffer(
        &self,
        width: usize,
        mode: Alignment,
        symbol: Self::Symbol,
        buffer: &mut Self::Buffer,
    )
        ensures
            final(buffer)@ == old(buffer)@ + resized(self.symbols(), width as nat, mode, symbol),
            final(buffer)@.len() == old(buffer)@.len() + width,
    ;
}

/// Borrows the part of `items` that a cut to `width` under `mode` keeps.
pub fn truncate_elements<T>(items: &[T], width: usize, mode: Alignment) -> (slice: &[T])
    requires
        width <= items@.len(),
    ensures
        slice@ == truncated(items@, width as nat, mode),
        slice@.len() == width,
{
    let start = mode.pads(items.len() - width).left();
    slice_subrange(items, start, start + width)
}

/// Returns `items` brought to `width` symbols as a new vector without spare
/// capacity.
pub fn pad_elements<T: Copy>(items: &[T], width: usize, mode: Alignment, symbol: T) -> (output:
    Vec<T>)
    ensures
        output@ == resized(items@, width as nat, mode, symbol),
        output@.len() == width,
{
    if width < items.len() {
        return slice_to_vec(truncate_elements(items, width, mode));
    }
    let missing = width - items.len();
    if missing == 0 {
        return slice_to_vec(items);
    }
    let pads = mode.pads(missing);
    let mut output: Vec<T> = Vec::with_capacity(width);
    append_filler(&mut output, symbol, pads.left());
    append_elements(&mut output, items);
    append_filler(&mut output, symbol, pads.right());
    release_spare(&mut output);
    output
}

/// Appends `items` brought to `width` symbols to `buffer`.
pub fn pad_elements_to_buffer<T: Copy>(
    items: &[T],
    width: usize,
    mode: Alignment,
    symbol: T,
    buffer: &mut Vec<T>,
)
    ensures
        final(buffer)@ == old(buffer)@ + resized(items@, width as nat, mode, symbol),
        final(buffer)@.len() == old(buffer)@.len() + width,
{
    if width < items.len() {
        append_elements(buffer, truncate_elements(items, width, mode));
        return ;
    }
    let missing = width - items.len();
    if missing == 0 {
        append_elements(buffer, items);
        return ;
    }
    let pads = mode.pads(missing);
    append_filler(buffer, symbol, pads.left());
    append_elements(buffer, items);
    append_filler(buffer, symbol, pads.right());
    release_spare(buffer);
    assert(buffer@ =~= old(buffer)@ + resized(items@, width as nat, mode, symbol));
}

/// Borrows the part of `text` that a cut to `width` scalar values under
/// `mode` keeps. Both ends of the part are found by walking over scalar
/// values, so neither falls inside the encoding of one.
pub fn truncate_text<'a>(text: &'a str, width: usize, mode: Alignment) -> (slice: &'a str)
    requires
        width <= text@.len(),
    ensures
        slice@ == truncated(text@, width as nat, mode),
        slice@.len() == width,
{
    let len = text.unicode_len();
    let start = mode.pads(len - width).left();
    let from = offset_of_symbol(text, start);
    let (_, tail) = text.split_at(from);
    proof {
        lemma_bytes_split(text@, start as nat);
        lemma_encode_injective(tail@, text@.subrange(start as int, len as int));
    }
    let to = offset_of_symbol(tail, width);
    let (slice, _) = tail.split_at(to);
    proof {
        lemma_bytes_split(tail@, width as nat);
        lemma_encode_injective(slice@, tail@.subrange(0, width as int));
        assert(slice@ =~= truncated(text@, width as nat, mode));
    }
    slice
}

/// The capacity in bytes that `text_bytes` bytes and `missing` symbols of
/// `symbol_bytes` bytes each need, where that is a capacity a text can have.
pub fn padded_capacity(text_bytes: usize, missing: usize, symbol_bytes: usize) -> (capacity:
    Option<usize>)
    ensures
        capacity is Some <==> text_bytes + missing * symbol_bytes <= isize::MAX,
        capacity is Some ==> capacity.unwrap() == text_bytes + missing * symbol_bytes,
{
    match missing.checked_mul(symbol_bytes) {
        Some(filler_bytes) => match text_bytes.checked_add(filler_bytes) {
            Some(total) => if total <= isize::MAX as usize {
                Some(total)
            } else {
                None
            },
            None => None,
        },
        None => None,
    }
}

/// Returns `text` brought to `width` scalar values as a new string.
pub fn pad_text(text: &str, width: usize, mode: Alignment, symbol: char) -> (output: String)
    ensures
        output@ == resized(text@, width as nat, mode, symbol),
        output@.len() == width,
{
    let len = text.unicode_len();
    if width < len {
        return truncate_text(text, width, mode).to_owned();
    }
    let missing = width - len;
    if missing == 0 {
        return text.to_owned();
    }
    let pads = mode.pads(missing);
    let mut output = match padded_capacity(text.len(), missing, symbol.len_utf8()) {
        Some(capacity) => String::with_capacity(capacity),
        None => String::new(),
    };
    append_symbols(&mut output, symbol, pads.left());
    output.append(text);
    append_symbols(&mut output, symbol, pads.right());
    assert(output@ =~= resized(text@, width as nat, mode, symbol));
    output
}

/// Appends `text` brought to `width` scalar values to `buffer`.
pub fn pad_text_to_buffer(
    text: &str,
    width: usize,
    mode: Alignment,
    symbol: char,
    buffer: &mut String,
)
    ensures
        final(buffer)@ == old(buffer)@ + resized(text@, width as nat, mode, symbol),
        final(buffer)@.len() == old(buffer)@.len() + width,
{
    let len = text.unicode_len();
    if width < len {
        buffer.append(truncate_text(text, width, mode));
        return ;
    }
    let missing = width - len;
    if missing == 0 {
        buffer.append(text);
        return ;
    }
    let pads = mode.pads(missing);
    append_symbols(buffer, symbol, pads.left());
    buffer.append(text);
    append_symbols(buffer, symbol, pads.right());
    assert(buffer@ =~= old(buffer)@ + resized(text@, width as nat, mode, symbol));
}

impl<'b> Source for &'b str {
    type Symbol = char;

    type Buffer = String;

    type Output = String;

    type Slice = str;

    open spec fn symbols(&self) -> Seq<char> {
        self@
    }

    fn truncate_to_fit(&self, width: usize, mode: Alignment) -> (slice: &str) {
        truncate_text(*self, width, mode)
    }

    fn pad(&self, width: usize, mode: Alignment, symbol: char) -> (output: String) {
        pad_text(*self, width, mode, symbol)
    }

    fn pad_to_buffer(&self, width: usize, mode: Alignment, symbol: char, buffer: &mut String) {
        pad_text_to_buffer(*self, width, mode, symbol, buffer)
    }
}

impl Source for String {
    type Symbol = char;

    type Buffer = String;

    type Output = String;

    type Slice = str;

    open spec fn symbols(&self) -> Seq<char> {
        self@
    }

    fn truncate_to_fit(&self, width: usize, mode: Alignment) -> (slice: &str) {
        truncate_text(self.as_str(), width, mode)
    }

    fn pad(&self, width: usize, mode: Alignment, symbol: char) -> (output: String) {
        pad_text(self.as_str(), width, mode, symbol)
    }

    fn pad_to_buffer(&self, width: usize, mode: Alignment, symbol: char, buffer: &mut String) {
        pad_text_to_buffer(self.as_str(), width, mode, symbol, buffer)
    }
}

impl<T: Copy> Source for Vec<T> {
    type Symbol = T;

    type Buffer = Vec<T>;

    type Output = Vec<T>;

    type Slice = [T];

    open spec fn symbols(&self) -> Seq<T> {
        self@
    }

    fn truncate_to_fit(&self, width: usize, mode: Alignment) -> (slice: &[T]) {
        truncate_elements(self.as_slice(), width, mode)
    }

    fn pad(&self, width: usize, mode: Alignment, symbol: T) -> (output: Vec<T>) {
        pad_elements(self.as_slice(), width, mode, symbol)
    }

    fn pad_to_buffer(&self, width: usize, mode: Alignment, symbol: T, buffer: &mut Vec<T>) {
        pad_elements_to_buffer(self.as_slice(), width, mode, symbol, buffer)
    }
}

impl<'b, T: Copy> Source for &'b [T] {
    type Symbol = T;

    type Buffer = Vec<T>;

    type Output = Vec<T>;

    type Slice = [T];

    open spec fn symbols(&self) -> Seq<T> {
        self@
    }

    fn truncate_to_fit(&self, width: usize, mode: Alignment) -> (slice: &[T]) {
        truncate_elements(*self, width, mode)
    }

    fn pad(&self, width: usize, mode: Alignment, symbol: T) -> (output: Vec<T>) {
        pad_elements(*self, width, mode, symbol)
    }

    fn pad_to_buffer(&self, width: usize, mode: Alignment, symbol: T, buffer: &mut Vec<T>) {
        pad_elements_to_buffer(*self, width, mode, symbol, buffer)
    }
}

} // verus!
