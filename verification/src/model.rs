//! What padding and truncation mean, stated over sequences of symbols.
//!
//! Every buffer kind is described by the sequence of its symbols: the scalar
//! values of a text, the slots of an element buffer. The functions here say
//! which sequence an operation yields; the executable code is proved against
//! them.

use vstd::prelude::*;
use crate::alignment::{Alignment, left_share, right_share};

verus! {

/// A run of `n` copies of `symbol`.
pub open spec fn filler<T>(symbol: T, n: nat) -> Seq<T> {
    Seq::new(n, |i: int| symbol)
}

/// `content` between the two filler runs that bring it to `width` symbols.
pub open spec fn padded<T>(content: Seq<T>, width: nat, mode: Alignment, symbol: T) -> Seq<T>
    recommends
        content.len() <= width,
{
    let missing = (width - content.len()) as nat;
    filler(symbol, left_share(mode, missing)) + content + filler(
        symbol,
        right_share(mode, missing),
    )
}

/// The index of the first symbol that survives a cut of `len` symbols down
/// to `width`.
pub open spec fn cut_start(len: nat, width: nat, mode: Alignment) -> nat
    recommends
        width <= len,
{
    left_share(mode, (len - width) as nat)
}

/// The `width` symbols of `content` that a cut keeps.
pub open spec fn truncated<T>(content: Seq<T>, width: nat, mode: Alignment) -> Seq<T>
    recommends
        width <= content.len(),
{
    let start = cut_start(content.len(), width, mode);
    content.subrange(start as int, (start + width) as int)
}

/// `content` brought to exactly `width` symbols: cut where it is longer,
/// unchanged where it already fits, filled with `symbol` where it is shorter.
pub open spec fn resized<T>(content: Seq<T>, width: nat, mode: Alignment, symbol: T) -> Seq<T> {
    if width < content.len() {
        truncated(content, width, mode)
    } else if width == content.len() {
        content
    } else {
        padded(content, width, mode, symbol)
    }
}

/// A resized buffer holds exactly `width` symbols, whatever it held before.
pub proof fn lemma_resized_len<T>(content: Seq<T>, width: nat, mode: Alignment, symbol: T)
    ensures
        resized(content, width, mode, symbol).len() == width,
{
}

/// Resizing a buffer to the width it already has changes nothing.
pub proof fn lemma_resized_same_width<T>(content: Seq<T>, mode: Alignment, symbol: T)
    ensures
        resized(content, content.len(), mode, symbol) == content,
{
}

/// Filling a buffer and then cutting the result back to the old width,
/// under the same alignment, gives the old content again. This holds for
/// every alignment: a centered fill puts the smaller half of the filler on
/// the left, and a centered cut drops the smaller half of the excess there.
pub proof fn lemma_pad_then_truncate<T>(
    content: Seq<T>,
    width: nat,
    mode: Alignment,
    symbol: T,
    other: T,
)
    requires
        content.len() <= width,
    ensures
        truncated(padded(content, width, mode, symbol), content.len(), mode) == content,
        resized(resized(content, width, mode, symbol), content.len(), mode, other) == content,
{
    let wide = padded(content, width, mode, symbol);
    assert(wide.len() == width);
    assert(cut_start(wide.len(), content.len(), mode) == left_share(
        mode,
        (width - content.len()) as nat,
    ));
    assert(truncated(wide, content.len(), mode) =~= content);
}

} // verus!
