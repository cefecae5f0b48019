//! A verified UTF-8 validity check, used for the client id of a request
//! header. The reference predicate is `vstd::utf8::valid_utf8`.

use vstd::prelude::*;
use vstd::utf8::{
    codepoint_width_2, codepoint_width_3, codepoint_width_4, length_of_first_scalar,
    partial_valid_partial_invalid_utf8, partial_valid_utf8, partial_valid_utf8_extend,
    valid_first_scalar, valid_utf8,
};

verus! {

/// A one-byte scalar: any byte up to `0x7F`.
proof fn lemma_scalar_width_1(s: Seq<u8>)
    requires
        s.len() >= 1,
        s[0] <= 0x7f,
    ensures
        valid_first_scalar(s),
        length_of_first_scalar(s) == 1,
{
    let b0 = s[0];
    assert(((b0 & 0x7f) as u32) < 0xD800) by (bit_vector)
        requires
            b0 <= 0x7f,
    ;
}

/// A two-byte scalar: a lead of at least `0xC2` (smaller leads are
/// overlong) and one continuation byte.
proof fn lemma_scalar_width_2(s: Seq<u8>)
    requires
        s.len() >= 2,
        0xc2 <= s[0] <= 0xdf,
        0x80 <= s[1] <= 0xbf,
    ensures
        valid_first_scalar(s),
        length_of_first_scalar(s) == 2,
{
    let b0 = s[0];
    let b1 = s[1];
    assert(0x80 <= (((((b0 & 0x1f) as u32)) << 6) | ((b1 & 0x3f) as u32)) < 0xD800)
        by (bit_vector)
        requires
            0xc2 <= b0 <= 0xdf,
            0x80 <= b1 <= 0xbf,
    ;
    assert(codepoint_width_2(b0, b1) == (((((b0 & 0x1f) as u32)) << 6) | ((b1 & 0x3f) as u32)));
}

/// An overlong two-byte sequence: leads `0xC0` and `0xC1` encode
/// codepoints below `0x80`.
proof fn lemma_overlong_width_2(s: Seq<u8>)
    requires
        s.len() >= 2,
        0xc0 <= s[0] <= 0xc1,
        0x80 <= s[1] <= 0xbf,
    ensures
        !valid_first_scalar(s),
{
    let b0 = s[0];
    let b1 = s[1];
    assert((((((b0 & 0x1f) as u32)) << 6) | ((b1 & 0x3f) as u32)) < 0x80) by (bit_vector)
        requires
            0xc0 <= b0 <= 0xc1,
            0x80 <= b1 <= 0xbf,
    ;
    assert(codepoint_width_2(b0, b1) == (((((b0 & 0x1f) as u32)) << 6) | ((b1 & 0x3f) as u32)));
}

/// A three-byte scalar, excluding the overlong low range after an `0xE0`
/// lead and the surrogate range after an `0xED` lead.
proof fn lemma_scalar_width_3(s: Seq<u8>)
    requires
        s.len() >= 3,
        0xe0 <= s[0] <= 0xef,
        0x80 <= s[1] <= 0xbf,
        0x80 <= s[2] <= 0xbf,
        s[0] == 0xe0 ==> s[1] >= 0xa0,
        s[0] == 0xed ==> s[1] < 0xa0,
    ensures
        valid_first_scalar(s),
        length_of_first_scalar(s) == 3,
{
    let b0 = s[0];
    let b1 = s[1];
    let b2 = s[2];
    let ghost cp = ((((b0 & 0x0f) as u32)) << 12) | ((((b1 & 0x3f) as u32)) << 6) | ((b2
        & 0x3f) as u32);
    assert(0x800 <= cp && !(0xD800 <= cp <= 0xDFFF)) by (bit_vector)
        requires
            cp == ((((b0 & 0x0f) as u32)) << 12) | ((((b1 & 0x3f) as u32)) << 6) | ((b2
                & 0x3f) as u32),
            0xe0 <= b0 <= 0xef,
            0x80 <= b1 <= 0xbf,
            0x80 <= b2 <= 0xbf,
            b0 == 0xe0 ==> b1 >= 0xa0,
            b0 == 0xed ==> b1 < 0xa0,
    ;
    assert(codepoint_width_3(b0, b1, b2) == cp);
}

/// A rejected three-byte sequence: overlong after `0xE0`, or a surrogate
/// after `0xED`.
proof fn lemma_invalid_width_3(s: Seq<u8>)
    requires
        s.len() >= 3,
        0xe0 <= s[0] <= 0xef,
        0x80 <= s[1] <= 0xbf,
        0x80 <= s[2] <= 0xbf,
        (s[0] == 0xe0 && s[1] < 0xa0) || (s[0] == 0xed && s[1] >= 0xa0),
    ensures
        !valid_first_scalar(s),
{
    let b0 = s[0];
    let b1 = s[1];
    let b2 = s[2];
    let ghost cp = ((((b0 & 0x0f) as u32)) << 12) | ((((b1 & 0x3f) as u32)) << 6) | ((b2
        & 0x3f) as u32);
    assert(cp < 0x800 || (0xD800 <= cp <= 0xDFFF)) by (bit_vector)
        requires
            cp == ((((b0 & 0x0f) as u32)) << 12) | ((((b1 & 0x3f) as u32)) << 6) | ((b2
                & 0x3f) as u32),
            0x80 <= b1 <= 0xbf,
            0x80 <= b2 <= 0xbf,
            (b0 == 0xe0 && b1 < 0xa0) || (b0 == 0xed && b1 >= 0xa0),
    ;
    assert(codepoint_width_3(b0, b1, b2) == cp);
}

/// A four-byte scalar: the codepoint must land in the supplementary
/// planes, up to `0x10FFFF`.
proof fn lemma_scalar_width_4(s: Seq<u8>)
    requires
        s.len() >= 4,
        0xf0 <= s[0] <= 0xf4,
        0x80 <= s[1] <= 0xbf,
        0x80 <= s[2] <= 0xbf,
        0x80 <= s[3] <= 0xbf,
        s[0] == 0xf0 ==> s[1] >= 0x90,
        s[0] == 0xf4 ==> s[1] <= 0x8f,
    ensures
        valid_first_scalar(s),
        length_of_first_scalar(s) == 4,
{
    let b0 = s[0];
    let b1 = s[1];
    let b2 = s[2];
    let b3 = s[3];
    let ghost cp = ((((b0 & 0x07) as u32)) << 18) | ((((b1 & 0x3f) as u32)) << 12) | ((((b2
        & 0x3f) as u32)) << 6) | ((b3 & 0x3f) as u32);
    assert(0x10000 <= cp <= 0x10ffff) by (bit_vector)
        requires
            cp == ((((b0 & 0x07) as u32)) << 18) | ((((b1 & 0x3f) as u32)) << 12) | ((((b2
                & 0x3f) as u32)) << 6) | ((b3 & 0x3f) as u32),
            0xf0 <= b0 <= 0xf4,
            0x80 <= b1 <= 0xbf,
            0x80 <= b2 <= 0xbf,
            0x80 <= b3 <= 0xbf,
            b0 == 0xf0 ==> b1 >= 0x90,
            b0 == 0xf4 ==> b1 <= 0x8f,
    ;
    assert(codepoint_width_4(b0, b1, b2, b3) == cp);
}

/// A rejected four-byte sequence: overlong after `0xF0`, beyond the last
/// plane after `0xF4`, or a lead of `0xF5` to `0xF7`.
proof fn lemma_invalid_width_4(s: Seq<u8>)
    requires
        s.len() >= 4,
        0xf0 <= s[0] <= 0xf7,
        0x80 <= s[1] <= 0xbf,
        0x80 <= s[2] <= 0xbf,
        0x80 <= s[3] <= 0xbf,
        (s[0] == 0xf0 && s[1] < 0x90) || (s[0] == 0xf4 && s[1] > 0x8f) || s[0] > 0xf4,
    ensures
        !valid_first_scalar(s),
{
    let b0 = s[0];
    let b1 = s[1];
    let b2 = s[2];
    let b3 = s[3];
    let ghost cp = ((((b0 & 0x07) as u32)) << 18) | ((((b1 & 0x3f) as u32)) << 12) | ((((b2
        & 0x3f) as u32)) << 6) | ((b3 & 0x3f) as u32);
    assert(cp < 0x10000 || cp > 0x10ffff) by (bit_vector)
        requires
            cp == ((((b0 & 0x07) as u32)) << 18) | ((((b1 & 0x3f) as u32)) << 12) | ((((b2
                & 0x3f) as u32)) << 6) | ((b3 & 0x3f) as u32),
            0x80 <= b1 <= 0xbf,
            0x80 <= b2 <= 0xbf,
            0x80 <= b3 <= 0xbf,
            (b0 == 0xf0 && b1 < 0x90) || (b0 == 0xf4 && b1 > 0x8f) || 0xf4 < b0 <= 0xf7,
    ;
    assert(codepoint_width_4(b0, b1, b2, b3) == cp);
}

/// A valid prefix followed by a suffix that opens with no valid scalar
/// makes the whole sequence invalid.
proof fn lemma_invalid_here(s: Seq<u8>, i: int)
    requires
        partial_valid_utf8(s, i),
        i < s.len(),
        !valid_first_scalar(s.subrange(i, s.len() as int)),
    ensures
        !valid_utf8(s),
{
    let suffix = s.subrange(i, s.len() as int);
    assert(!valid_utf8(suffix));
    partial_valid_partial_invalid_utf8(s, i);
}

/// Whether a continuation byte stands at `i + k` of the slice.
fn has_continuation(bytes: &[u8], i: usize, k: usize) -> (r: bool)
    requires
        i + k <= usize::MAX,
    ensures
        r == (i + k < bytes@.len() && 0x80 <= bytes@[i + k] <= 0xbf),
{
    if i + k < bytes.len() {
        let b: u8 = bytes[i + k];
        0x80 <= b && b <= 0xbf
    } else {
        false
    }
}

/// Decides whether the bytes are a valid UTF-8 encoding.
pub fn is_valid_utf8(bytes: &[u8]) -> (r: bool)
    ensures
        r == valid_utf8(bytes@),
{
    let n: usize = bytes.len();
    let mut i: usize = 0;
    proof {
        assert(bytes@.subrange(0, 0) =~= Seq::<u8>::empty());
    }
    while i < n
        invariant
            0 <= i <= n,
            n == bytes@.len(),
            partial_valid_utf8(bytes@, i as int),
        decreases n - i,
    {
        let ghost suffix = bytes@.subrange(i as int, n as int);
        let b0: u8 = bytes[i];
        assert(suffix[0] == b0);
        if b0 <= 0x7f {
            proof {
                lemma_scalar_width_1(suffix);
                partial_valid_utf8_extend(bytes@, i as int);
            }
            i = i + 1;
        } else if b0 < 0xc0 {
            // A continuation byte cannot lead a scalar.
            proof {
                lemma_invalid_here(bytes@, i as int);
            }
            return false;
        } else if b0 <= 0xdf {
            if !has_continuation(bytes, i, 1) {
                proof {
                    lemma_invalid_here(bytes@, i as int);
                }
                return false;
            }
            assert(suffix.len() >= 2 && suffix[1] == bytes@[i + 1]);
            if b0 <= 0xc1 {
                proof {
                    lemma_overlong_width_2(suffix);
                    lemma_invalid_here(bytes@, i as int);
                }
                return false;
            }
            proof {
                lemma_scalar_width_2(suffix);
                partial_valid_utf8_extend(bytes@, i as int);
            }
            i = i + 2;
        } else if b0 <= 0xef {
            if !has_continuation(bytes, i, 1) || !has_continuation(bytes, i, 2) {
                proof {
                    lemma_invalid_here(bytes@, i as int);
                }
                return false;
            }
            let b1: u8 = bytes[i + 1];
            assert(suffix.len() >= 3 && suffix[1] == b1 && suffix[2] == bytes@[i + 2]);
            if (b0 == 0xe0 && b1 < 0xa0) || (b0 == 0xed && b1 >= 0xa0) {
                proof {
                    lemma_invalid_width_3(suffix);
                    lemma_invalid_here(bytes@, i as int);
                }
                return false;
            }
            proof {
                lemma_scalar_width_3(suffix);
                partial_valid_utf8_extend(bytes@, i as int);
            }
            i = i + 3;
        } else if b0 <= 0xf7 {
            if !has_continuation(bytes, i, 1) || !has_continuation(bytes, i, 2)
                || !has_continuation(bytes, i, 3) {
                proof {
                    lemma_invalid_here(bytes@, i as int);
                }
                return false;
            }
            let b1: u8 = bytes[i + 1];
            assert(suffix.len() >= 4 && suffix[1] == b1 && suffix[2] == bytes@[i + 2]
                && suffix[3] == bytes@[i + 3]);
            if (b0 == 0xf0 && b1 < 0x90) || (b0 == 0xf4 && b1 > 0x8f) || b0 > 0xf4 {
                proof {
                    lemma_invalid_width_4(suffix);
                    lemma_invalid_here(bytes@, i as int);
                }
                return false;
            }
            proof {
                lemma_scalar_width_4(suffix);
                partial_valid_utf8_extend(bytes@, i as int);
            }
            i = i + 4;
        } else {
            // 0xF8 to 0xFF lead nothing.
            proof {
                lemma_invalid_here(bytes@, i as int);
            }
            return false;
        }
    }
    proof {
        assert(bytes@.subrange(0, n as int) =~= bytes@);
    }
    true
}

} // verus!
