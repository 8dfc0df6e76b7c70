//! Building blocks for buffers of copyable elements.

use vstd::prelude::*;
use crate::model::filler;

verus! {

/// Calls `Vec::shrink_to_fit`, which releases spare capacity and leaves the
/// elements as they are.
#[verifier::external_body]
pub(crate) fn release_spare<T>(buffer: &mut Vec<T>)
    ensures
        final(buffer)@ == old(buffer)@,
{
    buffer.shrink_to_fit();
}

/// Appends the elements of `items` to `buffer`, in order.
pub(crate) fn append_elements<T: Copy>(buffer: &mut Vec<T>, items: &[T])
    ensures
        final(buffer)@ == old(buffer)@ + items@,
{
    buffer.reserve(items.len());
    let mut i: usize = 0;
    while i < items.len()
        invariant
            i <= items@.len(),
            buffer@ == old(buffer)@ + items@.subrange(0, i as int),
        decreases items@.len() - i,
    {
        buffer.push(items[i]);
        i += 1;
        assert(buffer@ =~= old(buffer)@ + items@.subrange(0, i as int));
    }
    assert(items@.subrange(0, i as int) =~= items@);
}

/// Appends `n` copies of `symbol` to `buffer`.
pub(crate) fn append_filler<T: Copy>(buffer: &mut Vec<T>, symbol: T, n: usize)
    ensures
        final(buffer)@ == old(buffer)@ + filler(symbol, n as nat),
{
    buffer.reserve(n);
    let mut i: usize = 0;
    while i < n
        invariant
            i <= n,
            buffer@ == old(buffer)@ + filler(symbol, i as nat),
        decreases n - i,
    {
        buffer.push(symbol);
        i += 1;
        assert(buffer@ =~= old(buffer)@ + filler(symbol, i as nat));
    }
}

/// Moves the elements of `buffer` to the right by `gap` slots within the
/// buffer: what stood at index `k` stands at `k + gap` afterwards, and the
/// last `gap` elements are written over. The first `gap` slots keep what
/// they held and wait to be filled.
pub(crate) fn shift_right<T: Copy>(buffer: &mut Vec<T>, gap: usize)
    requires
        gap <= old(buffer)@.len(),
    ensures
        final(buffer)@.len() == old(buffer)@.len(),
        forall|k: int|
            0 <= k < old(buffer)@.len() - gap ==> #[trigger] final(buffer)@[k + gap] == old(
                buffer,
            )@[k],
{
    let len = buffer.len();
    let mut i: usize = len - gap;
    while i > 0
        invariant
            i <= len - gap,
            gap <= len,
            buffer@.len() == len,
            old(buffer)@.len() == len,
            forall|k: int| 0 <= k < i ==> buffer@[k] == old(buffer)@[k],
            forall|k: int| i <= k < len - gap ==> #[trigger] buffer@[k + gap] == old(buffer)@[k],
        decreases i,
    {
        i -= 1;
        let moved = buffer[i];
        buffer[i + gap] = moved;
    }
}

} // verus!
