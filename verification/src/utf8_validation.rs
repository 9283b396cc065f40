//! A verified UTF-8 validator and boundary finder.
//!
//! The validator walks a byte slice scalar by scalar and either accepts the
//! whole slice or reports how many leading bytes form valid UTF-8.  The
//! boundary finder returns the first offset at which a structurally valid
//! UTF-8 sequence starts; the cursor uses it to snap a seek target onto a
//! character boundary.

use vstd::prelude::*;
use vstd::slice::slice_subrange;
use vstd::utf8::{
    is_continuation_byte, is_leading_byte_width_1, is_leading_byte_width_2,
    is_leading_byte_width_3, is_leading_byte_width_4, length_of_first_scalar, partial_valid_utf8,
    partial_valid_utf8_extend, pop_first_scalar, valid_first_scalar, valid_utf8,
    partial_valid_partial_invalid_utf8, codepoint_width_2, codepoint_width_3, codepoint_width_4,
    decode_first_codepoint, leading_bits_width_2, leading_bits_width_3, leading_bits_width_4,
    continuation_bits, not_overlong_encoding, not_surrogate, length_of_first_codepoint,
    valid_leading_and_continuation_bytes_first_codepoint,
};

verus! {

/// Mirror of the error std's UTF-8 validation reports: how many leading bytes
/// are valid, and the length of the malformed sequence (`None` when the input
/// ended in the middle of a possibly-valid sequence).
#[derive(Debug, Copy, Clone, PartialEq, Eq)]
pub struct Utf8Error {
    pub valid_up_to: usize,
    pub error_len: Option<u8>,
}

/// Length of the longest prefix of `s` that is valid UTF-8 and ends on a
/// scalar boundary.
pub open spec fn utf8_prefix_len(s: Seq<u8>) -> int
    decreases s.len(),
{
    if s.len() == 0 {
        0
    } else if valid_first_scalar(s) && 1 <= length_of_first_scalar(s) <= s.len() {
        length_of_first_scalar(s) + utf8_prefix_len(
            s.subrange(length_of_first_scalar(s), s.len() as int),
        )
    } else {
        0
    }
}

/// True when some continuation of `s` begins with a valid scalar encoding:
/// `s` is a (possibly empty) prefix of at least one well-formed sequence.
pub open spec fn scalar_start_extendable(s: Seq<u8>) -> bool {
    exists|ext: Seq<u8>| valid_first_scalar(s + ext)
}

/// The range the second byte of a scalar encoding must fall in, given the
/// leading byte; reflects the UTF-8 grammar's exclusion of overlong forms and
/// surrogates.
pub open spec fn second_byte_ok(b0: u8, b1: u8) -> bool {
    if 0xC2 <= b0 && b0 <= 0xDF {
        is_continuation_byte(b1)
    } else if b0 == 0xE0 {
        0xA0 <= b1 && b1 <= 0xBF
    } else if b0 == 0xED {
        0x80 <= b1 && b1 <= 0x9F
    } else if 0xE1 <= b0 && b0 <= 0xEF {
        is_continuation_byte(b1)
    } else if b0 == 0xF0 {
        0x90 <= b1 && b1 <= 0xBF
    } else if b0 == 0xF4 {
        0x80 <= b1 && b1 <= 0x8F
    } else if 0xF1 <= b0 && b0 <= 0xF3 {
        is_continuation_byte(b1)
    } else {
        false
    }
}

proof fn lemma_valid_scalar_w1(s: Seq<u8>)
    requires
        s.len() >= 1,
        s[0] < 0x80,
    ensures
        valid_first_scalar(s),
        length_of_first_scalar(s) == 1,
{
}

proof fn lemma_valid_scalar_w2(s: Seq<u8>)
    requires
        s.len() >= 2,
        0xC2 <= s[0] && s[0] <= 0xDF,
        is_continuation_byte(s[1]),
    ensures
        valid_first_scalar(s),
        length_of_first_scalar(s) == 2,
{
    let b0 = s[0];
    let b1 = s[1];
    assert(0x80 <= ((((b0 & 0x1F) as u32) << 6) | ((b1 & 0x3F) as u32))
        && ((((b0 & 0x1F) as u32) << 6) | ((b1 & 0x3F) as u32)) <= 0x7FF) by (bit_vector)
        requires
            0xC2 <= b0 && b0 <= 0xDF,
            0x80 <= b1 && b1 <= 0xBF,
    ;
    assert(decode_first_codepoint(s) == (leading_bits_width_2(b0) << 6) | continuation_bits(b1));
}

proof fn lemma_valid_scalar_w3(s: Seq<u8>)
    requires
        s.len() >= 3,
        0xE0 <= s[0] && s[0] <= 0xEF,
        second_byte_ok(s[0], s[1]),
        is_continuation_byte(s[2]),
    ensures
        valid_first_scalar(s),
        length_of_first_scalar(s) == 3,
{
    let b0 = s[0];
    let b1 = s[1];
    let b2 = s[2];
    assert(is_continuation_byte(b1));
    let cp = ((((b0 & 0x0F) as u32) << 12) | (((b1 & 0x3F) as u32) << 6)) | ((b2 & 0x3F) as u32);
    assert(0x800 <= cp && !(0xD800 <= cp && cp <= 0xDFFF)) by (bit_vector)
        requires
            cp == ((((b0 & 0x0F) as u32) << 12) | (((b1 & 0x3F) as u32) << 6)) | ((b2
                & 0x3F) as u32),
            0xE0 <= b0 && b0 <= 0xEF,
            0x80 <= b1 && b1 <= 0xBF,
            0x80 <= b2 && b2 <= 0xBF,
            b0 == 0xE0 ==> 0xA0 <= b1,
            b0 == 0xED ==> b1 <= 0x9F,
    ;
    assert(decode_first_codepoint(s) == ((leading_bits_width_3(b0) << 12) | (continuation_bits(b1)
        << 6)) | continuation_bits(b2));
    assert(decode_first_codepoint(s) == cp);
}

proof fn lemma_valid_scalar_w4(s: Seq<u8>)
    requires
        s.len() >= 4,
        0xF0 <= s[0] && s[0] <= 0xF4,
        second_byte_ok(s[0], s[1]),
        is_continuation_byte(s[2]),
        is_continuation_byte(s[3]),
    ensures
        valid_first_scalar(s),
        length_of_first_scalar(s) == 4,
{
    let b0 = s[0];
    let b1 = s[1];
    let b2 = s[2];
    let b3 = s[3];
    assert(is_continuation_byte(b1));
    let cp = ((((b0 & 0x07) as u32) << 18) | (((b1 & 0x3F) as u32) << 12) | (((b2
        & 0x3F) as u32) << 6)) | ((b3 & 0x3F) as u32);
    assert(0x10000 <= cp && cp <= 0x10FFFF) by (bit_vector)
        requires
            cp == ((((b0 & 0x07) as u32) << 18) | (((b1 & 0x3F) as u32) << 12) | (((b2
                & 0x3F) as u32) << 6)) | ((b3 & 0x3F) as u32),
            0xF0 <= b0 && b0 <= 0xF4,
            0x80 <= b1 && b1 <= 0xBF,
            0x80 <= b2 && b2 <= 0xBF,
            0x80 <= b3 && b3 <= 0xBF,
            b0 == 0xF0 ==> 0x90 <= b1,
            b0 == 0xF4 ==> b1 <= 0x8F,
    ;
    assert(decode_first_codepoint(s) == (((leading_bits_width_4(b0) << 18) | (continuation_bits(b1)
        << 12)) | (continuation_bits(b2) << 6)) | continuation_bits(b3));
    assert(decode_first_codepoint(s) == cp);
}

/// No sequence that starts with a continuation byte, an always-overlong lead
/// (`C0`/`C1`), or a lead above `F4` can begin a valid scalar, whatever
/// follows.
proof fn lemma_bad_lead(t: Seq<u8>)
    requires
        t.len() >= 1,
        (0x80 <= t[0] && t[0] <= 0xC1) || 0xF5 <= t[0],
    ensures
        !valid_first_scalar(t),
{
    let b0 = t[0];
    if valid_first_scalar(t) {
        if 0xC0 <= b0 && b0 <= 0xC1 {
            let b1 = t[1];
            assert(decode_first_codepoint(t) == (leading_bits_width_2(b0) << 6)
                | continuation_bits(b1));
            assert(((((b0 & 0x1F) as u32) << 6) | ((b1 & 0x3F) as u32)) < 0x80) by (bit_vector)
                requires
                    0xC0 <= b0 && b0 <= 0xC1,
            ;
            assert(!not_overlong_encoding(decode_first_codepoint(t), 2));
        } else if 0xF5 <= b0 && b0 <= 0xF7 {
            let b1 = t[1];
            let b2 = t[2];
            let b3 = t[3];
            assert(decode_first_codepoint(t) == (((leading_bits_width_4(b0) << 18)
                | (continuation_bits(b1) << 12)) | (continuation_bits(b2) << 6))
                | continuation_bits(b3));
            assert(((((b0 & 0x07) as u32) << 18) | (((b1 & 0x3F) as u32) << 12) | (((b2
                & 0x3F) as u32) << 6)) | ((b3 & 0x3F) as u32) > 0x10FFFF) by (bit_vector)
                requires
                    0xF5 <= b0 && b0 <= 0xF7,
            ;
            assert(!not_overlong_encoding(decode_first_codepoint(t), 4));
        }
    }
}

/// A two-byte prefix whose second byte falls outside the range the leading
/// byte admits cannot begin a valid scalar, whatever follows.
proof fn lemma_bad_second(t: Seq<u8>)
    requires
        t.len() >= 2,
        0xC2 <= t[0] && t[0] <= 0xF4,
        !second_byte_ok(t[0], t[1]),
    ensures
        !valid_first_scalar(t),
{
    let b0 = t[0];
    let b1 = t[1];
    if valid_first_scalar(t) {
        if b0 <= 0xDF {
            assert(is_continuation_byte(b1));
        } else if b0 <= 0xEF {
            assert(is_continuation_byte(b1));
            let b2 = t[2];
            let cp = ((((b0 & 0x0F) as u32) << 12) | (((b1 & 0x3F) as u32) << 6)) | ((b2
                & 0x3F) as u32);
            assert(decode_first_codepoint(t) == ((leading_bits_width_3(b0) << 12)
                | (continuation_bits(b1) << 6)) | continuation_bits(b2));
            if b0 == 0xE0 {
                assert(cp < 0x800) by (bit_vector)
                    requires
                        cp == ((((b0 & 0x0F) as u32) << 12) | (((b1 & 0x3F) as u32) << 6)) | ((b2
                            & 0x3F) as u32),
                        b0 == 0xE0,
                        0x80 <= b1 && b1 <= 0x9F,
                ;
            } else {
                assert(b0 == 0xED && 0xA0 <= b1 && b1 <= 0xBF);
                assert(0xD800 <= cp && cp <= 0xDFFF) by (bit_vector)
                    requires
                        cp == ((((b0 & 0x0F) as u32) << 12) | (((b1 & 0x3F) as u32) << 6)) | ((b2
                            & 0x3F) as u32),
                        b0 == 0xED,
                        0xA0 <= b1 && b1 <= 0xBF,
                        0x80 <= b2 && b2 <= 0xBF,
                ;
            }
        } else {
            assert(is_continuation_byte(b1));
            let b2 = t[2];
            let b3 = t[3];
            let cp = ((((b0 & 0x07) as u32) << 18) | (((b1 & 0x3F) as u32) << 12) | (((b2
                & 0x3F) as u32) << 6)) | ((b3 & 0x3F) as u32);
            assert(decode_first_codepoint(t) == (((leading_bits_width_4(b0) << 18)
                | (continuation_bits(b1) << 12)) | (continuation_bits(b2) << 6))
                | continuation_bits(b3));
            if b0 == 0xF0 {
                assert(cp < 0x10000) by (bit_vector)
                    requires
                        cp == ((((b0 & 0x07) as u32) << 18) | (((b1 & 0x3F) as u32) << 12) | (((b2
                            & 0x3F) as u32) << 6)) | ((b3 & 0x3F) as u32),
                        b0 == 0xF0,
                        0x80 <= b1 && b1 <= 0x8F,
                ;
            } else {
                assert(b0 == 0xF4 && 0x90 <= b1 && b1 <= 0xBF);
                assert(cp > 0x10FFFF) by (bit_vector)
                    requires
                        cp == ((((b0 & 0x07) as u32) << 18) | (((b1 & 0x3F) as u32) << 12) | (((b2
                            & 0x3F) as u32) << 6)) | ((b3 & 0x3F) as u32),
                        b0 == 0xF4,
                        0x90 <= b1 && b1 <= 0xBF,
                ;
            }
        }
    }
}

/// A prefix whose third byte is not a continuation byte cannot begin a valid
/// three- or four-byte scalar, whatever follows.
proof fn lemma_bad_third(t: Seq<u8>)
    requires
        t.len() >= 3,
        0xE0 <= t[0] && t[0] <= 0xF4,
        !is_continuation_byte(t[2]),
    ensures
        !valid_first_scalar(t),
{
}

/// A prefix whose fourth byte is not a continuation byte cannot begin a valid
/// four-byte scalar, whatever follows.
proof fn lemma_bad_fourth(t: Seq<u8>)
    requires
        t.len() >= 4,
        0xF0 <= t[0] && t[0] <= 0xF4,
        !is_continuation_byte(t[3]),
    ensures
        !valid_first_scalar(t),
{
}

/// A lone lead byte of a multi-byte scalar can always be completed.
proof fn lemma_ext_one(t: Seq<u8>)
    requires
        t.len() == 1,
        0xC2 <= t[0] && t[0] <= 0xF4,
    ensures
        scalar_start_extendable(t),
{
    let b0 = t[0];
    if b0 <= 0xDF {
        let w = seq![0x80u8];
        lemma_valid_scalar_w2(t + w);
        assert(valid_first_scalar(t + w));
    } else if b0 <= 0xEF {
        let b1: u8 = if b0 == 0xE0 { 0xA0 } else { 0x80 };
        let w = seq![b1, 0x80u8];
        lemma_valid_scalar_w3(t + w);
        assert(valid_first_scalar(t + w));
    } else {
        let b1: u8 = if b0 == 0xF0 { 0x90 } else { 0x80 };
        let w = seq![b1, 0x80u8, 0x80u8];
        lemma_valid_scalar_w4(t + w);
        assert(valid_first_scalar(t + w));
    }
}

/// A well-formed two-byte prefix of a three- or four-byte scalar can always
/// be completed.
proof fn lemma_ext_two(t: Seq<u8>)
    requires
        t.len() == 2,
        0xE0 <= t[0] && t[0] <= 0xF4,
        second_byte_ok(t[0], t[1]),
    ensures
        scalar_start_extendable(t),
{
    if t[0] <= 0xEF {
        let w = seq![0x80u8];
        lemma_valid_scalar_w3(t + w);
        assert(valid_first_scalar(t + w));
    } else {
        let w = seq![0x80u8, 0x80u8];
        lemma_valid_scalar_w4(t + w);
        assert(valid_first_scalar(t + w));
    }
}

/// A well-formed three-byte prefix of a four-byte scalar can always be
/// completed.
proof fn lemma_ext_three(t: Seq<u8>)
    requires
        t.len() == 3,
        0xF0 <= t[0] && t[0] <= 0xF4,
        second_byte_ok(t[0], t[1]),
        is_continuation_byte(t[2]),
    ensures
        scalar_start_extendable(t),
{
    let w = seq![0x80u8];
    lemma_valid_scalar_w4(t + w);
    assert(valid_first_scalar(t + w));
}

/// Splits off one valid scalar from the front of the maximal valid prefix.
proof fn lemma_prefix_len_step(s: Seq<u8>)
    requires
        valid_first_scalar(s),
        1 <= length_of_first_scalar(s) <= s.len(),
    ensures
        utf8_prefix_len(s) == length_of_first_scalar(s) + utf8_prefix_len(
            s.subrange(length_of_first_scalar(s), s.len() as int),
        ),
{
}

/// Once the bytes at `i` cannot begin a scalar, the maximal valid prefix of
/// the whole sequence ends exactly at `i`, and the whole sequence is invalid.
proof fn lemma_close_error(v: Seq<u8>, i: int)
    requires
        0 <= i < v.len(),
        partial_valid_utf8(v, i),
        utf8_prefix_len(v) == i + utf8_prefix_len(v.subrange(i, v.len() as int)),
        !valid_first_scalar(v.subrange(i, v.len() as int)),
    ensures
        !valid_utf8(v),
        utf8_prefix_len(v) == i,
{
    let suf = v.subrange(i, v.len() as int);
    assert(utf8_prefix_len(suf) == 0);
    assert(!valid_utf8(suf));
    partial_valid_partial_invalid_utf8(v, i);
}

/// Checks that `v` is valid UTF-8, reporting on failure the length of the
/// longest valid prefix and the length of the malformed sequence, with the
/// same meaning std's validation gives those fields.
pub fn run_utf8_validation(v: &[u8]) -> (r: Result<(), Utf8Error>)
    ensures
        match r {
            Ok(()) => valid_utf8(v@),
            Err(e) => ({
                let u = e.valid_up_to as int;
                let suffix = v@.subrange(u, v@.len() as int);
                &&& !valid_utf8(v@)
                &&& u == utf8_prefix_len(v@)
                &&& u < v@.len()
                &&& partial_valid_utf8(v@, u)
                &&& !valid_first_scalar(suffix)
                &&& match e.error_len {
                    None => scalar_start_extendable(suffix),
                    Some(w) => ({
                        let stop = if w + 1 <= suffix.len() {
                            (w + 1) as int
                        } else {
                            suffix.len() as int
                        };
                        &&& 1 <= w <= 3
                        &&& u + w <= v@.len()
                        &&& !scalar_start_extendable(suffix)
                        &&& !scalar_start_extendable(suffix.subrange(0, stop))
                        &&& (w >= 2 ==> scalar_start_extendable(suffix.subrange(0, w as int)))
                    }),
                }
            }),
        },
{
    let len = v.len();
    let mut index: usize = 0;
    proof {
        assert(v@.subrange(0, len as int) =~= v@);
    }
    while index < len
        invariant
            len == v@.len(),
            index <= len,
            partial_valid_utf8(v@, index as int),
            utf8_prefix_len(v@) == index + utf8_prefix_len(v@.subrange(index as int, len as int)),
        decreases len - index,
    {
        let ghost suf = v@.subrange(index as int, len as int);
        let b0 = *vstd::slice::slice_index_get(v, index);
        if b0 < 0x80 {
            proof {
                lemma_valid_scalar_w1(suf);
                partial_valid_utf8_extend(v@, index as int);
                lemma_prefix_len_step(suf);
                assert(suf.subrange(1, suf.len() as int) =~= v@.subrange(
                    index + 1,
                    len as int,
                ));
            }
            index = index + 1;
        } else if b0 < 0xC2 {
            proof {
                assert forall|ext: Seq<u8>| !valid_first_scalar(suf + ext) by {
                    lemma_bad_lead(suf + ext);
                }
                assert(suf + Seq::<u8>::empty() =~= suf);
                lemma_close_error(v@, index as int);
                let stop: int = if 2 <= suf.len() {
                    2
                } else {
                    1
                };
                assert forall|ext: Seq<u8>| !valid_first_scalar(suf.subrange(0, stop) + ext) by {
                    lemma_bad_lead(suf.subrange(0, stop) + ext);
                }
            }
            return Err(Utf8Error { valid_up_to: index, error_len: Some(1) });
        } else if b0 < 0xE0 {
            if index + 1 >= len {
                proof {
                    assert(suf =~= seq![b0]);
                    lemma_ext_one(suf);
                    lemma_close_error(v@, index as int);
                }
                return Err(Utf8Error { valid_up_to: index, error_len: None });
            }
            let b1 = *vstd::slice::slice_index_get(v, index + 1);
            if b1 < 0x80 || b1 > 0xBF {
                proof {
                    assert forall|ext: Seq<u8>| !valid_first_scalar(suf + ext) by {
                        lemma_bad_second(suf + ext);
                    }
                    assert(suf + Seq::<u8>::empty() =~= suf);
                    lemma_close_error(v@, index as int);
                    assert forall|ext: Seq<u8>| !valid_first_scalar(suf.subrange(0, 2) + ext) by {
                        lemma_bad_second(suf.subrange(0, 2) + ext);
                    }
                }
                return Err(Utf8Error { valid_up_to: index, error_len: Some(1) });
            }
            proof {
                lemma_valid_scalar_w2(suf);
                partial_valid_utf8_extend(v@, index as int);
                lemma_prefix_len_step(suf);
                assert(suf.subrange(2, suf.len() as int) =~= v@.subrange(
                    index + 2,
                    len as int,
                ));
            }
            index = index + 2;
        } else if b0 < 0xF0 {
            if index + 1 >= len {
                proof {
                    assert(suf =~= seq![b0]);
                    lemma_ext_one(suf);
                    lemma_close_error(v@, index as int);
                }
                return Err(Utf8Error { valid_up_to: index, error_len: None });
            }
            let b1 = *vstd::slice::slice_index_get(v, index + 1);
            let lo: u8 = if b0 == 0xE0 { 0xA0 } else { 0x80 };
            let hi: u8 = if b0 == 0xED { 0x9F } else { 0xBF };
            if b1 < lo || b1 > hi {
                proof {
                    assert(!second_byte_ok(b0, b1));
                    assert forall|ext: Seq<u8>| !valid_first_scalar(suf + ext) by {
                        lemma_bad_second(suf + ext);
                    }
                    assert(suf + Seq::<u8>::empty() =~= suf);
                    lemma_close_error(v@, index as int);
                    assert forall|ext: Seq<u8>| !valid_first_scalar(suf.subrange(0, 2) + ext) by {
                        lemma_bad_second(suf.subrange(0, 2) + ext);
                    }
                }
                return Err(Utf8Error { valid_up_to: index, error_len: Some(1) });
            }
            if index + 2 >= len {
                proof {
                    assert(suf =~= seq![b0, b1]);
                    lemma_ext_two(suf);
                    lemma_close_error(v@, index as int);
                }
                return Err(Utf8Error { valid_up_to: index, error_len: None });
            }
            let b2 = *vstd::slice::slice_index_get(v, index + 2);
            if b2 < 0x80 || b2 > 0xBF {
                proof {
                    assert forall|ext: Seq<u8>| !valid_first_scalar(suf + ext) by {
                        lemma_bad_third(suf + ext);
                    }
                    assert(suf + Seq::<u8>::empty() =~= suf);
                    lemma_close_error(v@, index as int);
                    assert forall|ext: Seq<u8>| !valid_first_scalar(suf.subrange(0, 3) + ext) by {
                        lemma_bad_third(suf.subrange(0, 3) + ext);
                    }
                    assert(suf.subrange(0, 2) =~= seq![b0, b1]);
                    lemma_ext_two(suf.subrange(0, 2));
                }
                return Err(Utf8Error { valid_up_to: index, error_len: Some(2) });
            }
            proof {
                lemma_valid_scalar_w3(suf);
                partial_valid_utf8_extend(v@, index as int);
                lemma_prefix_len_step(suf);
                assert(suf.subrange(3, suf.len() as int) =~= v@.subrange(
                    index + 3,
                    len as int,
                ));
            }
            index = index + 3;
        } else if b0 < 0xF5 {
            if index + 1 >= len {
                proof {
                    assert(suf =~= seq![b0]);
                    lemma_ext_one(suf);
                    lemma_close_error(v@, index as int);
                }
                return Err(Utf8Error { valid_up_to: index, error_len: None });
            }
            let b1 = *vstd::slice::slice_index_get(v, index + 1);
            let lo: u8 = if b0 == 0xF0 { 0x90 } else { 0x80 };
            let hi: u8 = if b0 == 0xF4 { 0x8F } else { 0xBF };
            if b1 < lo || b1 > hi {
                proof {
                    assert(!second_byte_ok(b0, b1));
                    assert forall|ext: Seq<u8>| !valid_first_scalar(suf + ext) by {
                        lemma_bad_second(suf + ext);
                    }
                    assert(suf + Seq::<u8>::empty() =~= suf);
                    lemma_close_error(v@, index as int);
                    assert forall|ext: Seq<u8>| !valid_first_scalar(suf.subrange(0, 2) + ext) by {
                        lemma_bad_second(suf.subrange(0, 2) + ext);
                    }
                }
                return Err(Utf8Error { valid_up_to: index, error_len: Some(1) });
            }
            if index + 2 >= len {
                proof {
                    assert(suf =~= seq![b0, b1]);
                    lemma_ext_two(suf);
                    lemma_close_error(v@, index as int);
                }
                return Err(Utf8Error { valid_up_to: index, error_len: None });
            }
            let b2 = *vstd::slice::slice_index_get(v, index + 2);
            if b2 < 0x80 || b2 > 0xBF {
                proof {
                    assert forall|ext: Seq<u8>| !valid_first_scalar(suf + ext) by {
                        lemma_bad_third(suf + ext);
                    }
                    assert(suf + Seq::<u8>::empty() =~= suf);
                    lemma_close_error(v@, index as int);
                    assert forall|ext: Seq<u8>| !valid_first_scalar(suf.subrange(0, 3) + ext) by {
                        lemma_bad_third(suf.subrange(0, 3) + ext);
                    }
                    assert(suf.subrange(0, 2) =~= seq![b0, b1]);
                    lemma_ext_two(suf.subrange(0, 2));
                }
                return Err(Utf8Error { valid_up_to: index, error_len: Some(2) });
            }
            if index + 3 >= len {
                proof {
                    assert(suf =~= seq![b0, b1, b2]);
                    lemma_ext_three(suf);
                    lemma_close_error(v@, index as int);
                }
                return Err(Utf8Error { valid_up_to: index, error_len: None });
            }
            let b3 = *vstd::slice::slice_index_get(v, index + 3);
            if b3 < 0x80 || b3 > 0xBF {
                proof {
                    assert forall|ext: Seq<u8>| !valid_first_scalar(suf + ext) by {
                        lemma_bad_fourth(suf + ext);
                    }
                    assert(suf + Seq::<u8>::empty() =~= suf);
                    lemma_close_error(v@, index as int);
                    assert forall|ext: Seq<u8>| !valid_first_scalar(suf.subrange(0, 4) + ext) by {
                        lemma_bad_fourth(suf.subrange(0, 4) + ext);
                    }
                    assert(suf.subrange(0, 3) =~= seq![b0, b1, b2]);
                    lemma_ext_three(suf.subrange(0, 3));
                }
                return Err(Utf8Error { valid_up_to: index, error_len: Some(3) });
            }
            proof {
                lemma_valid_scalar_w4(suf);
                partial_valid_utf8_extend(v@, index as int);
                lemma_prefix_len_step(suf);
                assert(suf.subrange(4, suf.len() as int) =~= v@.subrange(
                    index + 4,
                    len as int,
                ));
            }
            index = index + 4;
        } else {
            proof {
                assert forall|ext: Seq<u8>| !valid_first_scalar(suf + ext) by {
                    lemma_bad_lead(suf + ext);
                }
                assert(suf + Seq::<u8>::empty() =~= suf);
                lemma_close_error(v@, index as int);
                let stop: int = if 2 <= suf.len() {
                    2
                } else {
                    1
                };
                assert forall|ext: Seq<u8>| !valid_first_scalar(suf.subrange(0, stop) + ext) by {
                    lemma_bad_lead(suf.subrange(0, stop) + ext);
                }
            }
            return Err(Utf8Error { valid_up_to: index, error_len: Some(1) });
        }
    }
    proof {
        assert(v@.subrange(0, len as int) =~= v@);
    }
    Ok(())
}

/// A fully valid buffer is its own maximal valid prefix.
pub proof fn lemma_prefix_len_full(s: Seq<u8>)
    requires
        valid_utf8(s),
    ensures
        utf8_prefix_len(s) == s.len(),
    decreases s.len(),
{
    if s.len() == 0 {
    } else {
        assert(valid_first_scalar(s));
        lemma_prefix_len_full(pop_first_scalar(s));
    }
}

/// The first position at or after `i` where a valid scalar encoding starts.
pub open spec fn first_valid_from(s: Seq<u8>, i: int) -> Option<int>
    decreases s.len() - i,
{
    if i < 0 || i >= s.len() {
        None
    } else if valid_first_scalar(s.subrange(i, s.len() as int)) {
        Some(i)
    } else {
        first_valid_from(s, i + 1)
    }
}

/// What `first_valid_pos` returns: the smallest offset whose suffix starts
/// with a valid scalar encoding, `Some(0)` for an empty window, `None` when
/// no such offset exists.
pub open spec fn first_valid_index(s: Seq<u8>) -> Option<int> {
    if s.len() == 0 {
        Some(0)
    } else {
        first_valid_from(s, 0)
    }
}

/// A nonempty valid prefix of `t` means `t` itself starts with a valid
/// scalar: the scalar only occupies the first few bytes, which agree.
pub proof fn lemma_valid_first_scalar_of_prefix(t: Seq<u8>, u: int)
    requires
        0 < u <= t.len(),
        valid_first_scalar(t.subrange(0, u)),
    ensures
        valid_first_scalar(t),
        length_of_first_scalar(t) == length_of_first_scalar(t.subrange(0, u)),
{
    let p = t.subrange(0, u);
    assert(p[0] == t[0]);
    if is_leading_byte_width_1(p[0]) {
    } else if is_leading_byte_width_2(p[0]) {
        assert(p[1] == t[1]);
        assert(decode_first_codepoint(p) == decode_first_codepoint(t));
    } else if is_leading_byte_width_3(p[0]) {
        assert(p[1] == t[1] && p[2] == t[2]);
        assert(decode_first_codepoint(p) == decode_first_codepoint(t));
    } else {
        assert(p[1] == t[1] && p[2] == t[2] && p[3] == t[3]);
        assert(decode_first_codepoint(p) == decode_first_codepoint(t));
    }
}

/// A found first-valid position lies in range and starts a valid scalar.
pub proof fn lemma_first_valid_from_range(s: Seq<u8>, i: int)
    requires
        0 <= i,
    ensures
        match first_valid_from(s, i) {
            Some(k) => i <= k < s.len() && valid_first_scalar(s.subrange(k, s.len() as int)),
            None => true,
        },
    decreases s.len() - i,
{
    if i < s.len() {
        if !valid_first_scalar(s.subrange(i, s.len() as int)) {
            lemma_first_valid_from_range(s, i + 1);
        }
    }
}

/// Returns the offset of the first valid start of a UTF-8 sequence within
/// the window, if one exists; the start need not be a complete scalar only
/// when the window is empty.  A window beginning mid-character yields the
/// offset just past the cut bytes; a window of nothing but continuation
/// bytes yields `None`.
///
/// Never returns an offset whose byte is a UTF-8 continuation byte.
pub fn first_valid_pos(b: &[u8]) -> (r: Option<usize>)
    ensures
        match r {
            Some(k) => first_valid_index(b@) == Some(k as int),
            None => first_valid_index(b@) is None,
        },
        match r {
            Some(k) => (k as int) < b@.len() ==> !is_continuation_byte(b@[k as int]),
            None => true,
        },
        match r {
            Some(k) => b@.len() == 0 || (k as int) < b@.len(),
            None => true,
        },
{
    let len = b.len();
    if len == 0 {
        return Some(0);
    }
    let mut offset: usize = 0;
    while offset < len
        invariant
            len == b@.len(),
            0 < len,
            offset <= len,
            first_valid_from(b@, 0) == first_valid_from(b@, offset as int),
        decreases len - offset,
    {
        let ghost suf = b@.subrange(offset as int, len as int);
        match run_utf8_validation(vstd::slice::slice_subrange(b, offset, len)) {
            Ok(()) => {
                proof {
                    assert(valid_first_scalar(suf));
                }
                return Some(offset);
            },
            Err(e) => {
                if e.valid_up_to > 0 {
                    proof {
                        assert(valid_utf8(suf.subrange(0, e.valid_up_to as int)));
                        assert(valid_first_scalar(suf.subrange(0, e.valid_up_to as int)));
                        lemma_valid_first_scalar_of_prefix(suf, e.valid_up_to as int);
                    }
                    return Some(offset);
                }
                proof {
                    assert(suf.subrange(0, suf.len() as int) =~= suf);
                    assert(!valid_first_scalar(suf));
                }
            },
        }
        offset = offset + 1;
    }
    None
}

} // verus!
