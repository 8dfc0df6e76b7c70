//! Building blocks for text: where the scalar values of a UTF-8 text start
//! and end in its bytes, and the string operations that the engines use.

use vstd::prelude::*;
use vstd::string::*;
use vstd::utf8::*;
use vstd::std_specs::iter::IteratorSpec;
use crate::alignment::{Alignment, left_share, right_share};
use crate::model::{cut_start, filler, padded, truncated};

verus! {

/// The number of bytes that the first `index` scalar values of `symbols`
/// take in UTF-8: the byte offset at which the scalar value with that index
/// starts.
pub open spec fn byte_offset(symbols: Seq<char>, index: nat) -> nat
    recommends
        index <= symbols.len(),
{
    encode_utf8(symbols.subrange(0, index as int)).len()
}

/// Encoding a concatenation gives the concatenation of the encodings.
pub proof fn lemma_encode_concat(a: Seq<char>, b: Seq<char>)
    ensures
        encode_utf8(a + b) == encode_utf8(a) + encode_utf8(b),
    decreases a.len(),
{
    if a.len() == 0 {
        assert(a + b =~= b);
        assert(encode_utf8(a) + encode_utf8(b) =~= encode_utf8(b));
    } else {
        lemma_encode_concat(a.drop_first(), b);
        assert((a + b).drop_first() =~= a.drop_first() + b);
        assert(encode_utf8(a + b) =~= encode_utf8(a) + encode_utf8(b));
    }
}

/// Two texts with the same bytes hold the same scalar values.
pub proof fn lemma_encode_injective(a: Seq<char>, b: Seq<char>)
    requires
        encode_utf8(a) == encode_utf8(b),
    ensures
        a == b,
{
    encode_utf8_decode_utf8(a);
    encode_utf8_decode_utf8(b);
}

/// Every scalar value takes between one and four bytes.
pub proof fn lemma_symbol_width(symbol: char)
    ensures
        1 <= encode_scalar(symbol as u32).len() <= 4,
{
}

/// The bytes of a text fall apart at the offset of any of its scalar
/// values: the bytes before the offset encode the scalar values before the
/// index, the bytes from the offset on encode the rest.
pub proof fn lemma_bytes_split(symbols: Seq<char>, index: nat)
    requires
        index <= symbols.len(),
    ensures
        byte_offset(symbols, index) <= encode_utf8(symbols).len(),
        encode_utf8(symbols).subrange(0, byte_offset(symbols, index) as int) == encode_utf8(
            symbols.subrange(0, index as int),
        ),
        encode_utf8(symbols).subrange(
            byte_offset(symbols, index) as int,
            encode_utf8(symbols).len() as int,
        ) == encode_utf8(symbols.subrange(index as int, symbols.len() as int)),
{
    let head = symbols.subrange(0, index as int);
    let tail = symbols.subrange(index as int, symbols.len() as int);
    assert(symbols =~= head + tail);
    lemma_encode_concat(head, tail);
    let bytes = encode_utf8(symbols);
    let offset = byte_offset(symbols, index) as int;
    assert(bytes.subrange(0, offset) =~= encode_utf8(head));
    assert(bytes.subrange(offset, bytes.len() as int) =~= encode_utf8(tail));
}

/// The offset of a scalar value grows by the width of the scalar value
/// before it.
pub proof fn lemma_byte_offset_step(symbols: Seq<char>, index: nat)
    requires
        index < symbols.len(),
    ensures
        byte_offset(symbols, index + 1) == byte_offset(symbols, index) + encode_scalar(
            symbols[index as int] as u32,
        ).len(),
{
    let head = symbols.subrange(0, index as int);
    let one = seq![symbols[index as int]];
    assert(symbols.subrange(0, index + 1 as int) =~= head + one);
    lemma_encode_concat(head, one);
    assert(one.drop_first() =~= Seq::<char>::empty());
    assert(encode_utf8(one) =~= encode_scalar(symbols[index as int] as u32)) by {
        reveal_with_fuel(encode_utf8, 2);
    }
}

/// The offset of every scalar value of a text, and the end of the text, is
/// a character boundary of its bytes: no offset falls inside the encoding of
/// a scalar value.
pub proof fn lemma_offset_is_boundary(symbols: Seq<char>, index: nat)
    requires
        index <= symbols.len(),
    ensures
        is_char_boundary(encode_utf8(symbols), byte_offset(symbols, index) as int),
    decreases index,
{
    let bytes = encode_utf8(symbols);
    encode_utf8_valid_utf8(symbols);
    if index == 0 {
        assert(symbols.subrange(0, 0) =~= Seq::<char>::empty());
    } else {
        let rest = symbols.drop_first();
        encode_utf8_first_scalar(symbols);
        assert(pop_first_scalar(bytes) =~= encode_utf8(rest));
        lemma_offset_is_boundary(rest, (index - 1) as nat);
        let head = symbols.subrange(0, index as int);
        assert(head.drop_first() =~= rest.subrange(0, index - 1));
        assert(head[0] == symbols[0]);
        lemma_symbol_width(symbols[0]);
        lemma_bytes_split(symbols, index);
        assert(byte_offset(symbols, index) == encode_scalar(symbols[0] as u32).len()
            + byte_offset(rest, (index - 1) as nat));
    }
}

/// Both ends of a cut of a text fall on character boundaries of its bytes,
/// and the bytes between them are the valid UTF-8 encoding of exactly the
/// scalar values that the cut keeps.
pub proof fn lemma_cut_on_boundaries(symbols: Seq<char>, width: nat, mode: Alignment)
    requires
        width <= symbols.len(),
    ensures
        ({
            let bytes = encode_utf8(symbols);
            let start = cut_start(symbols.len(), width, mode);
            let from = byte_offset(symbols, start) as int;
            let to = byte_offset(symbols, start + width) as int;
            &&& 0 <= from <= to <= bytes.len()
            &&& is_char_boundary(bytes, from)
            &&& is_char_boundary(bytes, to)
            &&& bytes.subrange(from, to) == encode_utf8(truncated(symbols, width, mode))
            &&& valid_utf8(bytes.subrange(from, to))
        }),
{
    let bytes = encode_utf8(symbols);
    let start = cut_start(symbols.len(), width, mode);
    let end = start + width;
    let from = byte_offset(symbols, start) as int;
    let to = byte_offset(symbols, end) as int;
    let head = symbols.subrange(0, start as int);
    let kept = truncated(symbols, width, mode);
    lemma_offset_is_boundary(symbols, start);
    lemma_offset_is_boundary(symbols, end);
    lemma_bytes_split(symbols, start);
    lemma_bytes_split(symbols, end);
    assert(symbols.subrange(0, end as int) =~= head + kept);
    lemma_encode_concat(head, kept);
    assert(bytes.subrange(from, to) =~= bytes.subrange(0, to).subrange(from, to));
    assert(bytes.subrange(from, to) =~= encode_utf8(kept));
    encode_utf8_valid_utf8(kept);
}

/// `char::len_utf8` gives the number of bytes that the UTF-8 encoding of
/// the scalar value takes.
pub assume_specification[ char::len_utf8 ](symbol: char) -> (width: usize)
    ensures
        width == encode_scalar(symbol as u32).len(),
;

/// `String::with_capacity` gives an empty text. It fails where the
/// capacity is beyond `isize::MAX`, so such a capacity is not admitted.
pub assume_specification[ String::with_capacity ](capacity: usize) -> (text: String)
    requires
        capacity <= isize::MAX,
    ensures
        text@ == Seq::<char>::empty(),
;

/// `String::push` appends one scalar value. As vstd does for `Vec::push`,
/// the contract leaves aside that memory may run out.
pub assume_specification[ String::push ](text: &mut String, symbol: char)
    ensures
        final(text)@ == old(text)@.push(symbol),
;

/// `String::truncate` keeps the first `new_len` bytes, and everything where
/// the text has no more than that. It fails where `new_len` falls inside the
/// encoding of a scalar value, so such a length is not admitted.
pub assume_specification[ String::truncate ](text: &mut String, new_len: usize)
    requires
        new_len <= encode_utf8(old(text)@).len() ==> is_char_boundary(
            encode_utf8(old(text)@),
            new_len as int,
        ),
    ensures
        new_len <= encode_utf8(old(text)@).len() ==> encode_utf8(final(text)@) == encode_utf8(
            old(text)@,
        ).subrange(0, new_len as int),
        new_len > encode_utf8(old(text)@).len() ==> final(text)@ == old(text)@,
;

/// `String::shrink_to_fit` releases spare capacity and leaves the text as
/// it is.
pub assume_specification[ String::shrink_to_fit ](text: &mut String)
    ensures
        final(text)@ == old(text)@,
;

/// Calls `String::drain` on the range up to `end`, which removes the first
/// `end` bytes of the text. The call fails where `end` is no character
/// boundary of the text, so such an offset is not admitted.
#[verifier::external_body]
pub(crate) fn remove_front(text: &mut String, end: usize)
    requires
        is_char_boundary(encode_utf8(old(text)@), end as int),
    ensures
        encode_utf8(final(text)@) == encode_utf8(old(text)@).subrange(
            end as int,
            encode_utf8(old(text)@).len() as int,
        ),
{
    text.drain(..end);
}

/// Finds the byte offset at which the scalar value with index `index`
/// starts, by walking over the scalar values before it. For the index one
/// past the last scalar value this is the length of the text in bytes.
pub fn offset_of_symbol(text: &str, index: usize) -> (offset: usize)
    requires
        index <= text@.len(),
    ensures
        offset == byte_offset(text@, index as nat),
        offset <= text.spec_bytes().len(),
        is_char_boundary(text.spec_bytes(), offset as int),
{
    let total = text.as_bytes().len();
    let mut chars = text.chars();
    let mut offset: usize = 0;
    let mut seen: usize = 0;
    proof {
        assert(text@.subrange(0, text@.len() as int) =~= text@);
        assert(text@.subrange(0, 0) =~= Seq::<char>::empty());
    }
    while seen < index
        invariant
            seen <= index <= text@.len(),
            total == encode_utf8(text@).len(),
            chars.obeys_prophetic_iter_laws(),
            chars.remaining() == text@.subrange(seen as int, text@.len() as int),
            offset == byte_offset(text@, seen as nat),
        decreases index - seen,
    {
        let next = chars.next();
        proof {
            lemma_byte_offset_step(text@, seen as nat);
            lemma_bytes_split(text@, (seen + 1) as nat);
            assert(text@.subrange(seen as int, text@.len() as int).drop_first()
                =~= text@.subrange(seen + 1, text@.len() as int));
        }
        match next {
            Some(symbol) => {
                offset += symbol.len_utf8();
            },
            // Not reached: the text holds more than `seen` scalar values.
            None => {},
        }
        seen += 1;
    }
    proof {
        lemma_bytes_split(text@, index as nat);
        lemma_offset_is_boundary(text@, index as nat);
    }
    offset
}

/// Appends `n` copies of `symbol` to `text`.
pub(crate) fn append_symbols(text: &mut String, symbol: char, n: usize)
    ensures
        final(text)@ == old(text)@ + filler(symbol, n as nat),
{
    let mut i: usize = 0;
    while i < n
        invariant
            i <= n,
            text@ == old(text)@ + filler(symbol, i as nat),
        decreases n - i,
    {
        text.push(symbol);
        i += 1;
        assert(text@ =~= old(text)@ + filler(symbol, i as nat));
    }
}

/// `String::into_bytes` hands out the UTF-8 bytes of the text.
pub assume_specification[ String::into_bytes ](text: String) -> (bytes: Vec<u8>)
    ensures
        bytes@ == encode_utf8(text@),
;

/// Calls `String::from_utf8`, which accepts exactly the byte sequences
/// that are valid UTF-8 and gives the text with those bytes.
#[verifier::external_body]
pub(crate) fn text_from_bytes(bytes: Vec<u8>) -> (text: Option<String>)
    ensures
        text is Some <==> valid_utf8(bytes@),
        text is Some ==> encode_utf8(text.unwrap()@) == bytes@,
{
    String::from_utf8(bytes).ok()
}

/// Calls `char::encode_utf8` on four byte slots, which writes the encoding
/// of the scalar value to the front of the slots and tells how many bytes it
/// took.
#[verifier::external_body]
pub(crate) fn encode_symbol(symbol: char) -> (encoded: ([u8; 4], usize))
    ensures
        encoded.1 == encode_scalar(symbol as u32).len(),
        encoded.0@.subrange(0, encoded.1 as int) == encode_scalar(symbol as u32),
{
    let mut slots = [0u8; 4];
    let width = symbol.encode_utf8(&mut slots).len();
    (slots, width)
}

/// `n` copies of the byte sequence `unit`, one after the other.
pub open spec fn repeated(unit: Seq<u8>, n: nat) -> Seq<u8>
    decreases n,
{
    if n == 0 {
        Seq::<u8>::empty()
    } else {
        repeated(unit, (n - 1) as nat) + unit
    }
}

/// A run of `n` units takes `n` times the bytes of one unit.
pub proof fn lemma_repeated_len(unit: Seq<u8>, n: nat)
    ensures
        repeated(unit, n).len() == n * unit.len(),
    decreases n,
{
    if n > 0 {
        lemma_repeated_len(unit, (n - 1) as nat);
        assert(n * unit.len() == (n - 1) * unit.len() + unit.len()) by (nonlinear_arith);
    } else {
        assert(0 * unit.len() == 0) by (nonlinear_arith);
    }
}

/// The bytes of a filler run are the bytes of its symbol, repeated.
pub proof fn lemma_encode_filler(symbol: char, n: nat)
    ensures
        encode_utf8(filler(symbol, n)) == repeated(encode_scalar(symbol as u32), n),
    decreases n,
{
    if n == 0 {
        assert(filler(symbol, 0) =~= Seq::<char>::empty());
    } else {
        let shorter = filler(symbol, (n - 1) as nat);
        let one = seq![symbol];
        lemma_encode_filler(symbol, (n - 1) as nat);
        assert(filler(symbol, n) =~= shorter + one);
        lemma_encode_concat(shorter, one);
        assert(one.drop_first() =~= Seq::<char>::empty());
        assert(encode_utf8(one) =~= encode_scalar(symbol as u32)) by {
            reveal_with_fuel(encode_utf8, 2);
        }
    }
}

/// The bytes of a padded text are the bytes of the left filler, of the old
/// content and of the right filler, in this order, and their number is the
/// number of the old bytes plus one symbol's bytes for each missing symbol.
pub proof fn lemma_padded_bytes(content: Seq<char>, width: nat, mode: Alignment, symbol: char)
    requires
        content.len() <= width,
    ensures
        encode_utf8(padded(content, width, mode, symbol)) == repeated(
            encode_scalar(symbol as u32),
            left_share(mode, (width - content.len()) as nat),
        ) + encode_utf8(content) + repeated(
            encode_scalar(symbol as u32),
            right_share(mode, (width - content.len()) as nat),
        ),
        encode_utf8(padded(content, width, mode, symbol)).len() == encode_utf8(content).len() + (
        width - content.len()) * encode_scalar(symbol as u32).len(),
{
    let missing = (width - content.len()) as nat;
    let left = left_share(mode, missing);
    let right = right_share(mode, missing);
    let piece = encode_scalar(symbol as u32);
    lemma_encode_concat(filler(symbol, left), content);
    lemma_encode_concat(filler(symbol, left) + content, filler(symbol, right));
    lemma_encode_filler(symbol, left);
    lemma_encode_filler(symbol, right);
    lemma_repeated_len(piece, left);
    lemma_repeated_len(piece, right);
    assert((left + right) * piece.len() == left * piece.len() + right * piece.len())
        by (nonlinear_arith);
}

/// Appends `n` copies of the first `unit_len` bytes of `unit` to `bytes`.
pub(crate) fn append_run(bytes: &mut Vec<u8>, unit: &[u8; 4], unit_len: usize, n: usize)
    requires
        unit_len <= 4,
    ensures
        final(bytes)@ == old(bytes)@ + repeated(unit@.subrange(0, unit_len as int), n as nat),
{
    let ghost piece = unit@.subrange(0, unit_len as int);
    let mut i: usize = 0;
    while i < n
        invariant
            i <= n,
            unit_len <= 4,
            piece == unit@.subrange(0, unit_len as int),
            bytes@ == old(bytes)@ + repeated(piece, i as nat),
        decreases n - i,
    {
        let ghost before = bytes@;
        let mut b: usize = 0;
        while b < unit_len
            invariant
                b <= unit_len <= 4,
                piece == unit@.subrange(0, unit_len as int),
                bytes@ == before + piece.subrange(0, b as int),
            decreases unit_len - b,
        {
            bytes.push(unit[b]);
            b += 1;
            assert(bytes@ =~= before + piece.subrange(0, b as int));
        }
        i += 1;
        assert(piece.subrange(0, unit_len as int) =~= piece);
        assert(bytes@ =~= old(bytes)@ + repeated(piece, i as nat));
    }
}

/// Writes `n` copies of the first `unit_len` bytes of `unit` over the
/// front of `bytes`. The bytes behind the run stay as they are.
pub(crate) fn write_run(bytes: &mut Vec<u8>, unit: &[u8; 4], unit_len: usize, n: usize)
    requires
        unit_len <= 4,
        n * unit_len <= old(bytes)@.len(),
    ensures
        final(bytes)@.len() == old(bytes)@.len(),
        final(bytes)@.subrange(0, n * unit_len) == repeated(
            unit@.subrange(0, unit_len as int),
            n as nat,
        ),
        forall|k: int| n * unit_len <= k < old(bytes)@.len() ==> final(bytes)@[k] == old(bytes)@[k],
{
    let ghost piece = unit@.subrange(0, unit_len as int);
    let total = bytes.len();
    let mut at: usize = 0;
    let mut i: usize = 0;
    proof {
        lemma_repeated_len(piece, n as nat);
    }
    while i < n
        invariant
            i <= n,
            unit_len <= 4,
            piece == unit@.subrange(0, unit_len as int),
            bytes@.len() == old(bytes)@.len(),
            bytes@.len() == total,
            repeated(piece, n as nat).len() == n * unit_len,
            n * unit_len <= bytes@.len(),
            at == repeated(piece, i as nat).len(),
            at <= n * unit_len,
            bytes@.subrange(0, at as int) == repeated(piece, i as nat),
            forall|k: int| at <= k < bytes@.len() ==> bytes@[k] == old(bytes)@[k],
        decreases n - i,
    {
        proof {
            lemma_repeated_len(piece, i as nat);
            lemma_repeated_len(piece, (i + 1) as nat);
            assert((i + 1) * unit_len <= n * unit_len) by (nonlinear_arith)
                requires
                    i + 1 <= n,
            ;
        }
        let ghost start = at;
        let mut b: usize = 0;
        while b < unit_len
            invariant
                b <= unit_len <= 4,
                piece == unit@.subrange(0, unit_len as int),
                bytes@.len() == old(bytes)@.len(),
                bytes@.len() == total,
                start + unit_len <= bytes@.len(),
                at == start + b,
                bytes@.subrange(0, start as int) == repeated(piece, i as nat),
                bytes@.subrange(start as int, at as int) == piece.subrange(0, b as int),
                forall|k: int| at <= k < bytes@.len() ==> bytes@[k] == old(bytes)@[k],
            decreases unit_len - b,
        {
            let ghost prior = bytes@;
            bytes[at] = unit[b];
            at += 1;
            b += 1;
            assert(bytes@.subrange(0, start as int) =~= prior.subrange(0, start as int));
            assert(bytes@.subrange(start as int, at as int) =~= piece.subrange(0, b as int)) by {
                assert forall|k: int| 0 <= k < b - 1 implies bytes@[start + k] == piece[k] by {
                    assert(prior.subrange(start as int, at - 1)[k] == piece.subrange(
                        0,
                        b - 1,
                    )[k]);
                }
            }
        }
        i += 1;
        assert(piece.subrange(0, unit_len as int) =~= piece);
        assert(bytes@.subrange(0, at as int) =~= bytes@.subrange(0, start as int)
            + bytes@.subrange(start as int, at as int));
    }
}

} // verus!
