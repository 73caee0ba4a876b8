//! UTF-8 validation, proved against the UTF-8 model of `vstd::utf8`.

use vstd::prelude::*;
use vstd::utf8::{
    valid_utf8, valid_first_scalar, valid_leading_and_continuation_bytes_first_codepoint,
    length_of_first_scalar, pop_first_scalar,
};

verus! {

/// Whether `input` is a well-formed UTF-8 encoding: every scalar is
/// encoded with the shortest form, no surrogate values appear, and no
/// sequence is truncated.
#[verifier::loop_isolation(false)]
#[verifier::rlimit(100)]
pub fn utf8_ok(input: &[u8]) -> (r: bool)
    ensures
        r == valid_utf8(input@),
{
    let ghost len = input@.len() as int;
    let mut i: usize = 0;
    proof {
        assert(input@.subrange(0, len) =~= input@);
    }
    loop
        invariant
            i <= input@.len(),
            valid_utf8(input@) == valid_utf8(input@.subrange(i as int, len)),
        decreases input@.len() - i,
    {
        let ghost suf = input@.subrange(i as int, len);
        if i == input.len() {
            proof {
                assert(suf.len() == 0);
            }
            return true;
        }
        proof {
            assert(suf.len() > 0);
            assert(suf[0] == input@[i as int]);
        }
        let b0 = input[i];
        let w: usize;
        if b0 <= 0x7f {
            proof {
                assert(b0 & 0x7f < 0xd800) by (bit_vector);
                assert(valid_first_scalar(suf));
                assert(length_of_first_scalar(suf) == 1);
            }
            w = 1;
        } else if 0xc0 <= b0 && b0 <= 0xdf {
            if !(i + 1 < input.len()) {
                proof {
                    assert(!valid_leading_and_continuation_bytes_first_codepoint(suf));
                }
                return false;
            }
            let b1 = input[i + 1];
            proof {
                assert(suf[1] == input@[i + 1]);
            }
            if !(0x80 <= b1 && b1 <= 0xbf) {
                proof {
                    assert(!valid_leading_and_continuation_bytes_first_codepoint(suf));
                }
                return false;
            }
            let cp: u32 = (((b0 & 0x1f) as u32) << 6u32) | ((b1 & 0x3f) as u32);
            if cp < 0x80 {
                return false;
            }
            proof {
                assert(((((b0 & 0x1f) as u32) << 6u32) | ((b1 & 0x3f) as u32)) <= 0x7ff)
                    by (bit_vector);
                assert(valid_first_scalar(suf));
                assert(length_of_first_scalar(suf) == 2);
            }
            w = 2;
        } else if 0xe0 <= b0 && b0 <= 0xef {
            if !(i + 1 < input.len() && i + 2 < input.len()) {
                proof {
                    assert(!valid_leading_and_continuation_bytes_first_codepoint(suf));
                }
                return false;
            }
            let b1 = input[i + 1];
            let b2 = input[i + 2];
            proof {
                assert(suf[1] == input@[i + 1] && suf[2] == input@[i + 2]);
            }
            if !(0x80 <= b1 && b1 <= 0xbf && 0x80 <= b2 && b2 <= 0xbf) {
                proof {
                    assert(!valid_leading_and_continuation_bytes_first_codepoint(suf));
                }
                return false;
            }
            let cp: u32 = (((b0 & 0x0f) as u32) << 12u32) | (((b1 & 0x3f) as u32) << 6u32) | ((
            b2 & 0x3f) as u32);
            if cp < 0x800 {
                return false;
            }
            if 0xd800 <= cp && cp <= 0xdfff {
                return false;
            }
            proof {
                assert(valid_first_scalar(suf));
                assert(length_of_first_scalar(suf) == 3);
            }
            w = 3;
        } else if 0xf0 <= b0 && b0 <= 0xf7 {
            if !(i + 1 < input.len() && i + 2 < input.len() && i + 3 < input.len()) {
                proof {
                    assert(!valid_leading_and_continuation_bytes_first_codepoint(suf));
                }
                return false;
            }
            let b1 = input[i + 1];
            let b2 = input[i + 2];
            let b3 = input[i + 3];
            proof {
                assert(suf[1] == input@[i + 1] && suf[2] == input@[i + 2] && suf[3] == input@[i
                    + 3]);
            }
            if !(0x80 <= b1 && b1 <= 0xbf && 0x80 <= b2 && b2 <= 0xbf && 0x80 <= b3 && b3
                <= 0xbf) {
                proof {
                    assert(!valid_leading_and_continuation_bytes_first_codepoint(suf));
                }
                return false;
            }
            let cp: u32 = (((b0 & 0x07) as u32) << 18u32) | (((b1 & 0x3f) as u32) << 12u32) | (((
            b2 & 0x3f) as u32) << 6u32) | ((b3 & 0x3f) as u32);
            if !(0x10000 <= cp && cp <= 0x10ffff) {
                return false;
            }
            proof {
                assert(valid_first_scalar(suf));
                assert(length_of_first_scalar(suf) == 4);
            }
            w = 4;
        } else {
            proof {
                assert(!valid_leading_and_continuation_bytes_first_codepoint(suf));
            }
            return false;
        }
        proof {
            assert(pop_first_scalar(suf) =~= input@.subrange(i + w, len));
        }
        i += w;
    }
}

} // verus!
