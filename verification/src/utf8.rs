//! UTF-8 well-formedness at the byte level.
//!
//! The protocol carries strings as byte sequences; before one is accepted
//! it must be well-formed UTF-8, since it will be handed on as text.  The
//! predicate follows the encoding's shape table: ASCII, two- to four-byte
//! sequences with their continuation ranges, no overlong forms, no
//! surrogates, nothing above U+10FFFF.

use vstd::prelude::*;

verus! {

/// A UTF-8 continuation byte.
pub open spec fn is_cont(c: u8) -> bool {
    0x80 <= c <= 0xbf
}

/// The bytes from `i` on are well-formed UTF-8.
pub open spec fn is_utf8_from(s: Seq<u8>, i: int) -> bool
    decreases s.len() - i,
{
    if i >= s.len() {
        true
    } else {
        let c = s[i];
        if c < 0x80 {
            is_utf8_from(s, i + 1)
        } else if 0xc2 <= c <= 0xdf {
            i + 2 <= s.len() && is_cont(s[i + 1]) && is_utf8_from(s, i + 2)
        } else if c == 0xe0 {
            i + 3 <= s.len() && 0xa0 <= s[i + 1] <= 0xbf && is_cont(s[i + 2]) && is_utf8_from(
                s,
                i + 3,
            )
        } else if c == 0xed {
            i + 3 <= s.len() && 0x80 <= s[i + 1] <= 0x9f && is_cont(s[i + 2]) && is_utf8_from(
                s,
                i + 3,
            )
        } else if 0xe1 <= c <= 0xef {
            i + 3 <= s.len() && is_cont(s[i + 1]) && is_cont(s[i + 2]) && is_utf8_from(s, i + 3)
        } else if c == 0xf0 {
            i + 4 <= s.len() && 0x90 <= s[i + 1] <= 0xbf && is_cont(s[i + 2]) && is_cont(s[i + 3])
                && is_utf8_from(s, i + 4)
        } else if 0xf1 <= c <= 0xf3 {
            i + 4 <= s.len() && is_cont(s[i + 1]) && is_cont(s[i + 2]) && is_cont(s[i + 3])
                && is_utf8_from(s, i + 4)
        } else if c == 0xf4 {
            i + 4 <= s.len() && 0x80 <= s[i + 1] <= 0x8f && is_cont(s[i + 2]) && is_cont(s[i + 3])
                && is_utf8_from(s, i + 4)
        } else {
            false
        }
    }
}

/// The whole byte sequence is well-formed UTF-8.
pub open spec fn is_utf8(s: Seq<u8>) -> bool {
    is_utf8_from(s, 0)
}

/// Checks UTF-8 well-formedness of a byte buffer.
pub fn check_utf8(s: &Vec<u8>) -> (r: bool)
    ensures
        r == is_utf8(s@),
{
    let mut i: usize = 0;
    loop
        invariant
            i <= s@.len(),
            is_utf8(s@) == is_utf8_from(s@, i as int),
        decreases s@.len() - i,
    {
        if i >= s.len() {
            return true;
        }
        let c = s[i];
        if c < 0x80 {
            i = i + 1;
        } else if 0xc2 <= c && c <= 0xdf {
            if s.len() - i < 2 || !(0x80 <= s[i + 1] && s[i + 1] <= 0xbf) {
                return false;
            }
            i = i + 2;
        } else if c == 0xe0 {
            if s.len() - i < 3 || !(0xa0 <= s[i + 1] && s[i + 1] <= 0xbf) || !(0x80 <= s[i + 2]
                && s[i + 2] <= 0xbf) {
                return false;
            }
            i = i + 3;
        } else if c == 0xed {
            if s.len() - i < 3 || !(0x80 <= s[i + 1] && s[i + 1] <= 0x9f) || !(0x80 <= s[i + 2]
                && s[i + 2] <= 0xbf) {
                return false;
            }
            i = i + 3;
        } else if 0xe1 <= c && c <= 0xef {
            if s.len() - i < 3 || !(0x80 <= s[i + 1] && s[i + 1] <= 0xbf) || !(0x80 <= s[i + 2]
                && s[i + 2] <= 0xbf) {
                return false;
            }
            i = i + 3;
        } else if c == 0xf0 {
            if s.len() - i < 4 || !(0x90 <= s[i + 1] && s[i + 1] <= 0xbf) || !(0x80 <= s[i + 2]
                && s[i + 2] <= 0xbf) || !(0x80 <= s[i + 3] && s[i + 3] <= 0xbf) {
                return false;
            }
            i = i + 4;
        } else if 0xf1 <= c && c <= 0xf3 {
            if s.len() - i < 4 || !(0x80 <= s[i + 1] && s[i + 1] <= 0xbf) || !(0x80 <= s[i + 2]
                && s[i + 2] <= 0xbf) || !(0x80 <= s[i + 3] && s[i + 3] <= 0xbf) {
                return false;
            }
            i = i + 4;
        } else if c == 0xf4 {
            if s.len() - i < 4 || !(0x80 <= s[i + 1] && s[i + 1] <= 0x8f) || !(0x80 <= s[i + 2]
                && s[i + 2] <= 0xbf) || !(0x80 <= s[i + 3] && s[i + 3] <= 0xbf) {
                return false;
            }
            i = i + 4;
        } else {
            return false;
        }
    }
}

} // verus!
