//! Navigation between the scalar boundaries of UTF-8 text.
//!
//! Offsets are byte offsets. An offset is a boundary when it is the start of a
//! scalar's encoding or the end of the text. The functions here step from one
//! boundary to the neighbouring one, in either direction, by looking only at
//! the bit pattern of the bytes next to the offset.

use vstd::prelude::*;
use vstd::string::*;
use vstd::utf8::*;

verus! {

/// Width in bytes of the encoding that starts with the leading byte `byte`:
/// `0xxxxxxx` is 1, `110xxxxx` is 2, `1110xxxx` is 3, `11110xxx` is 4.
pub open spec fn leading_width(byte: u8) -> int {
    if is_leading_byte_width_1(byte) {
        1
    } else if is_leading_byte_width_2(byte) {
        2
    } else if is_leading_byte_width_3(byte) {
        3
    } else {
        4
    }
}

/// Width in bytes of the encoding that ends just before offset `i`, found by
/// walking back over continuation bytes (`10xxxxxx`) to the leading byte.
pub open spec fn trailing_width(bytes: Seq<u8>, i: int) -> int {
    if !is_continuation_byte(bytes[i - 1]) {
        1
    } else if !is_continuation_byte(bytes[i - 2]) {
        2
    } else if !is_continuation_byte(bytes[i - 3]) {
        3
    } else {
        4
    }
}

/// The boundary that follows `i`; the end of the text is its own successor.
pub open spec fn next_boundary(bytes: Seq<u8>, i: int) -> int {
    if 0 <= i < bytes.len() {
        i + leading_width(bytes[i])
    } else {
        i
    }
}

/// The boundary that precedes `i`; the start of the text is its own
/// predecessor.
pub open spec fn prev_boundary(bytes: Seq<u8>, i: int) -> int {
    if 0 < i <= bytes.len() {
        i - trailing_width(bytes, i)
    } else {
        i
    }
}

/// A boundary lies within the text or at its end.
pub proof fn lemma_boundary_in_range(bytes: Seq<u8>, i: int)
    requires
        valid_utf8(bytes),
        is_char_boundary(bytes, i),
    ensures
        0 <= i <= bytes.len(),
{
}

/// Both ends of a text are boundaries.
pub proof fn lemma_ends_are_boundaries(bytes: Seq<u8>)
    requires
        valid_utf8(bytes),
    ensures
        is_char_boundary(bytes, 0),
        is_char_boundary(bytes, bytes.len() as int),
{
    is_char_boundary_start_end_of_seq(bytes);
}

/// From a boundary before the end, `next_boundary` gives the least boundary
/// above it: it is a boundary, at most four bytes further, and every offset in
/// between holds a continuation byte.
pub proof fn lemma_next_boundary(bytes: Seq<u8>, i: int)
    requires
        valid_utf8(bytes),
        is_char_boundary(bytes, i),
        i < bytes.len(),
    ensures
        !is_continuation_byte(bytes[i]),
        i < next_boundary(bytes, i) <= bytes.len(),
        next_boundary(bytes, i) <= i + 4,
        is_char_boundary(bytes, next_boundary(bytes, i)),
        forall|j: int|
            i < j < next_boundary(bytes, i) ==> is_continuation_byte(#[trigger] bytes[j]),
        forall|j: int| i < j < next_boundary(bytes, i) ==> !is_char_boundary(bytes, j),
{
    lemma_boundary_in_range(bytes, i);
    let n = bytes.len() as int;
    let suffix = bytes.subrange(i, n);
    valid_utf8_split(bytes, i);
    assert(valid_first_scalar(suffix));
    assert(suffix[0] == bytes[i]);
    let w = length_of_first_scalar(suffix);
    assert(w == leading_width(bytes[i]));
    assert(i + w <= n);
    assert forall|j: int| i < j < i + w implies is_continuation_byte(#[trigger] bytes[j]) by {
        assert(bytes[j] == suffix[j - i]);
    }
    let rest = pop_first_scalar(suffix);
    assert(valid_utf8(rest));
    if i + w < n {
        assert(valid_first_scalar(rest));
        assert(rest[0] == bytes[i + w]);
        is_char_boundary_iff_not_is_continuation_byte(bytes, i + w);
    } else {
        is_char_boundary_start_end_of_seq(bytes);
    }
    is_char_boundary_iff_not_is_continuation_byte(bytes, i);
    assert forall|j: int| i < j < i + w implies !is_char_boundary(bytes, j) by {
        is_char_boundary_iff_not_is_continuation_byte(bytes, j);
    }
}

/// Every boundary but the start is where some scalar's encoding ends: the
/// result is the boundary at which that encoding starts.
proof fn lemma_scalar_before(bytes: Seq<u8>, i: int) -> (p: int)
    requires
        valid_utf8(bytes),
        is_char_boundary(bytes, i),
        0 < i,
    ensures
        0 <= p < i,
        is_char_boundary(bytes, p),
        p + leading_width(bytes[p]) == i,
    decreases bytes.len(),
{
    lemma_boundary_in_range(bytes, i);
    let w0 = length_of_first_scalar(bytes);
    let rest = pop_first_scalar(bytes);
    assert(valid_first_scalar(bytes));
    assert(valid_utf8(rest));
    assert(is_char_boundary(rest, i - w0));
    if i - w0 == 0 {
        0
    } else {
        lemma_boundary_in_range(rest, i - w0);
        let q = lemma_scalar_before(rest, i - w0);
        lemma_boundary_in_range(rest, q);
        assert(rest[q] == bytes[q + w0]);
        assert(is_char_boundary(bytes, q + w0));
        q + w0
    }
}

/// From a boundary after the start, `prev_boundary` gives the greatest
/// boundary below it, and stepping forward from there leads back.
pub proof fn lemma_prev_boundary(bytes: Seq<u8>, i: int)
    requires
        valid_utf8(bytes),
        is_char_boundary(bytes, i),
        0 < i,
    ensures
        0 <= prev_boundary(bytes, i) < i,
        i - 4 <= prev_boundary(bytes, i),
        is_char_boundary(bytes, prev_boundary(bytes, i)),
        next_boundary(bytes, prev_boundary(bytes, i)) == i,
        forall|j: int| prev_boundary(bytes, i) < j < i ==> !is_char_boundary(bytes, j),
{
    lemma_boundary_in_range(bytes, i);
    let p = lemma_scalar_before(bytes, i);
    lemma_next_boundary(bytes, p);
    assert(i - 1 > p ==> is_continuation_byte(bytes[i - 1]));
    assert(i - 2 > p ==> is_continuation_byte(bytes[i - 2]));
    assert(i - 3 > p ==> is_continuation_byte(bytes[i - 3]));
    assert(trailing_width(bytes, i) == i - p);
}

/// Stepping forward from a boundary before the end and then back returns to
/// it.
pub proof fn lemma_prev_of_next(bytes: Seq<u8>, i: int)
    requires
        valid_utf8(bytes),
        is_char_boundary(bytes, i),
        i < bytes.len(),
    ensures
        prev_boundary(bytes, next_boundary(bytes, i)) == i,
{
    lemma_boundary_in_range(bytes, i);
    lemma_next_boundary(bytes, i);
    let n = next_boundary(bytes, i);
    assert(n - 1 > i ==> is_continuation_byte(bytes[n - 1]));
    assert(n - 2 > i ==> is_continuation_byte(bytes[n - 2]));
    assert(n - 3 > i ==> is_continuation_byte(bytes[n - 3]));
    assert(trailing_width(bytes, n) == n - i);
}

/// Stepping back from a boundary after the start and then forward returns to
/// it.
pub proof fn lemma_next_of_prev(bytes: Seq<u8>, i: int)
    requires
        valid_utf8(bytes),
        is_char_boundary(bytes, i),
        0 < i,
    ensures
        next_boundary(bytes, prev_boundary(bytes, i)) == i,
{
    lemma_prev_boundary(bytes, i);
}

/// Width in bytes of the scalar that starts at `index`, or `None` at or past
/// the end of `s`.
pub fn len_of_codepoint_on(s: &str, index: usize) -> (width: Option<usize>)
    requires
        index < s.spec_bytes().len() ==> is_char_boundary(s.spec_bytes(), index as int),
    ensures
        index >= s.spec_bytes().len() ==> width is None,
        index < s.spec_bytes().len() ==> width == Some(
            leading_width(s.spec_bytes()[index as int]) as usize,
        ),
        index < s.spec_bytes().len() ==> index + leading_width(s.spec_bytes()[index as int])
            == next_boundary(s.spec_bytes(), index as int),
        width is Some ==> next_boundary(s.spec_bytes(), index as int) <= usize::MAX,
{
    let bytes = s.as_bytes();
    if index >= bytes.len() {
        return None;
    }
    proof {
        encode_utf8_valid_utf8(s@);
        lemma_next_boundary(s.spec_bytes(), index as int);
    }
    let byte = bytes[index];
    if byte <= 0x7f {
        Some(1)
    } else if 0xc0 <= byte && byte <= 0xdf {
        Some(2)
    } else if 0xe0 <= byte && byte <= 0xef {
        Some(3)
    } else {
        Some(4)
    }
}

/// Width in bytes of the scalar that ends just before `index`, or `None` at
/// the start of `s` and past its end.
pub fn len_of_prev_codepoint(s: &str, index: usize) -> (width: Option<usize>)
    requires
        0 < index <= s.spec_bytes().len() ==> is_char_boundary(s.spec_bytes(), index as int),
    ensures
        index == 0 || index > s.spec_bytes().len() ==> width is None,
        0 < index <= s.spec_bytes().len() ==> width == Some(
            trailing_width(s.spec_bytes(), index as int) as usize,
        ),
        0 < index <= s.spec_bytes().len() ==> index - trailing_width(
            s.spec_bytes(),
            index as int,
        ) == prev_boundary(s.spec_bytes(), index as int),
{
    let bytes = s.as_bytes();
    if index == 0 || index > bytes.len() {
        return None;
    }
    proof {
        encode_utf8_valid_utf8(s@);
        lemma_prev_boundary(s.spec_bytes(), index as int);
        utf8_byte_ranges_bitwise(bytes@[index - 1]);
    }
    let byte0 = bytes[index - 1];
    if byte0 < 128 {
        return Some(1);
    }
    proof {
        utf8_byte_ranges_bitwise(bytes@[index - 2]);
    }
    let byte1 = bytes[index - 2];
    if byte1 & 0b11000000 != 0b10000000 {
        return Some(2);
    }
    proof {
        utf8_byte_ranges_bitwise(bytes@[index - 3]);
    }
    let byte2 = bytes[index - 3];
    if byte2 & 0b11000000 != 0b10000000 {
        return Some(3);
    }
    Some(4)
}

/// The boundary that follows `index` in `s`: the start of the next scalar, or
/// the end of the text. At the end of the text it is `index` itself.
pub fn next_index_in_str(s: &str, index: usize) -> (next: usize)
    requires
        is_char_boundary(s.spec_bytes(), index as int),
    ensures
        next == next_boundary(s.spec_bytes(), index as int),
        is_char_boundary(s.spec_bytes(), next as int),
        index == s.spec_bytes().len() ==> next == index,
        index < s.spec_bytes().len() ==> index < next <= s.spec_bytes().len(),
        forall|j: int| index < j < next ==> !is_char_boundary(s.spec_bytes(), j),
{
    proof {
        encode_utf8_valid_utf8(s@);
        lemma_boundary_in_range(s.spec_bytes(), index as int);
        if index < s.spec_bytes().len() {
            lemma_next_boundary(s.spec_bytes(), index as int);
        }
    }
    match len_of_codepoint_on(s, index) {
        Some(len) => index + len,
        None => index,
    }
}

/// The boundary that precedes `index` in `s`: the start of the scalar that
/// ends there. At the start of the text it is `index` itself.
pub fn prev_index_in_str(s: &str, index: usize) -> (prev: usize)
    requires
        is_char_boundary(s.spec_bytes(), index as int),
    ensures
        prev == prev_boundary(s.spec_bytes(), index as int),
        is_char_boundary(s.spec_bytes(), prev as int),
        index == 0 ==> prev == 0,
        index > 0 ==> prev < index,
        forall|j: int| prev < j < index ==> !is_char_boundary(s.spec_bytes(), j),
{
    proof {
        encode_utf8_valid_utf8(s@);
        lemma_boundary_in_range(s.spec_bytes(), index as int);
        if index > 0 {
            lemma_prev_boundary(s.spec_bytes(), index as int);
        }
    }
    match len_of_prev_codepoint(s, index) {
        Some(len) => index - len,
        None => index,
    }
}

} // verus!
