//! Byte-level edits of a `String`, and what they do to scalar boundaries.

use vstd::prelude::*;
use vstd::string::*;
use vstd::utf8::*;

verus! {

/// `bytes` with the span `[lo, hi)` replaced by `ins`.
pub open spec fn splice(bytes: Seq<u8>, lo: int, hi: int, ins: Seq<u8>) -> Seq<u8> {
    bytes.subrange(0, lo) + ins + bytes.subrange(hi, bytes.len() as int)
}

/// Offset `i` lies in `bytes` or at its end, and no continuation byte sits
/// there.
pub open spec fn starts_scalar_or_ends(bytes: Seq<u8>, i: int) -> bool {
    0 <= i <= bytes.len() && (i == bytes.len() || !is_continuation_byte(bytes[i]))
}

/// In valid UTF-8 the boundaries are the end of the text and the offsets of the
/// bytes that are not continuation bytes.
pub proof fn lemma_boundary_by_byte(bytes: Seq<u8>, i: int)
    requires
        valid_utf8(bytes),
    ensures
        is_char_boundary(bytes, i) == starts_scalar_or_ends(bytes, i),
{
    if 0 <= i < bytes.len() {
        is_char_boundary_iff_not_is_continuation_byte(bytes, i);
    } else if i == bytes.len() {
        is_char_boundary_start_end_of_seq(bytes);
    }
}

/// Replacing a span between two boundaries by valid UTF-8 gives valid UTF-8, in
/// which both ends of the replacement are boundaries.
pub proof fn lemma_splice(bytes: Seq<u8>, lo: int, hi: int, ins: Seq<u8>)
    requires
        valid_utf8(bytes),
        is_char_boundary(bytes, lo),
        is_char_boundary(bytes, hi),
        lo <= hi,
        valid_utf8(ins),
    ensures
        valid_utf8(splice(bytes, lo, hi, ins)),
        splice(bytes, lo, hi, ins).len() == bytes.len() - (hi - lo) + ins.len(),
        is_char_boundary(splice(bytes, lo, hi, ins), lo),
        is_char_boundary(splice(bytes, lo, hi, ins), lo + ins.len()),
{
    let n = bytes.len() as int;
    let out = splice(bytes, lo, hi, ins);
    lemma_boundary_by_byte(bytes, lo);
    lemma_boundary_by_byte(bytes, hi);
    valid_utf8_split(bytes, lo);
    valid_utf8_split(bytes, hi);
    valid_utf8_concat(bytes.subrange(0, lo), ins);
    valid_utf8_concat(bytes.subrange(0, lo) + ins, bytes.subrange(hi, n));
    lemma_boundary_by_byte(ins, 0);
    lemma_boundary_by_byte(out, lo);
    lemma_boundary_by_byte(out, lo + ins.len());
    if ins.len() > 0 {
        assert(out[lo] == ins[0]);
    } else if hi < n {
        assert(out[lo] == bytes[hi]);
    }
    if hi < n {
        assert(out[lo + ins.len()] == bytes[hi]);
    }
}

/// The encoding of one scalar is valid UTF-8 whose leading byte tells its
/// length.
pub proof fn lemma_encode_scalar(ch: char)
    ensures
        valid_utf8(encode_scalar(ch as u32)),
        1 <= encode_scalar(ch as u32).len() <= 4,
        crate::utf8::leading_width(encode_scalar(ch as u32)[0]) == encode_scalar(ch as u32).len(),
        encode_utf8(seq![ch]) == encode_scalar(ch as u32),
{
    let chars = seq![ch];
    reveal_with_fuel(encode_utf8, 2);
    assert(chars.drop_first() =~= Seq::<char>::empty());
    assert(encode_utf8(chars) =~= encode_scalar(ch as u32));
    encode_utf8_first_scalar(chars);
    encode_utf8_valid_utf8(chars);
}

/// The number of bytes in `s`.
pub fn byte_len(s: &str) -> (n: usize)
    ensures
        n == s.spec_bytes().len(),
{
    s.as_bytes().len()
}

/// `String::insert`: puts the encoding of `ch` into the text at byte offset
/// `index`, which must be a boundary. What stood before `index` stays, what
/// stood from `index` on follows the new scalar. Failure to allocate is not
/// modelled.
#[verifier::external_body]
pub(crate) fn string_insert(text: &mut String, index: usize, ch: char)
    requires
        is_char_boundary(encode_utf8(old(text)@), index as int),
    ensures
        encode_utf8(final(text)@) == splice(
            encode_utf8(old(text)@),
            index as int,
            index as int,
            encode_scalar(ch as u32),
        ),
{
    text.insert(index, ch);
}

/// `String::insert_str`: puts the bytes of `input` into the text at byte
/// offset `index`, which must be a boundary. Failure to allocate is not
/// modelled.
#[verifier::external_body]
pub(crate) fn string_insert_str(text: &mut String, index: usize, input: &str)
    requires
        is_char_boundary(encode_utf8(old(text)@), index as int),
    ensures
        encode_utf8(final(text)@) == splice(
            encode_utf8(old(text)@),
            index as int,
            index as int,
            input.spec_bytes(),
        ),
{
    text.insert_str(index, input);
}

/// `String::drain`, with the drained scalars dropped: removes the bytes in
/// `[start, end)` from the text. Both offsets must be boundaries, and `start`
/// may not exceed `end`.
#[verifier::external_body]
pub(crate) fn string_drain(text: &mut String, start: usize, end: usize)
    requires
        start <= end,
        is_char_boundary(encode_utf8(old(text)@), start as int),
        is_char_boundary(encode_utf8(old(text)@), end as int),
    ensures
        encode_utf8(final(text)@) == splice(
            encode_utf8(old(text)@),
            start as int,
            end as int,
            Seq::<u8>::empty(),
        ),
{
    text.drain(start..end);
}

/// The scalars that `char::to_uppercase` yields for `c`, in their order.
pub uninterp spec fn uppercase_of(c: char) -> Seq<char>;

/// `char::to_uppercase`: the upper-case form of `c`, which may be longer than
/// one scalar, with its scalars in the order in which the iterator yields
/// them.
#[verifier::external_body]
pub(crate) fn to_uppercase(c: char) -> (upper: Vec<char>)
    ensures
        upper@ == uppercase_of(c),
{
    c.to_uppercase().collect()
}

} // verus!
