use vstd::prelude::*;

verus! {

/// Whether `b` is a UTF-8 continuation byte (`10xxxxxx`).
pub open spec fn is_cont(b: u8) -> bool {
    0x80 <= b <= 0xBF
}

/// Whether the bytes of `s` from position `i` onwards are well-formed
/// UTF-8: every code-unit sequence is of the shortest form and encodes a
/// scalar value (no surrogates, nothing above `U+10FFFF`).
pub open spec fn valid_utf8_from(s: Seq<u8>, i: int) -> bool
    decreases s.len() - i,
{
    if i >= s.len() || i < 0 {
        true
    } else {
        let b0 = s[i];
        if b0 < 0x80 {
            valid_utf8_from(s, i + 1)
        } else if 0xC2 <= b0 <= 0xDF {
            i + 1 < s.len() && is_cont(s[i + 1]) && valid_utf8_from(s, i + 2)
        } else if b0 == 0xE0 {
            i + 2 < s.len() && 0xA0 <= s[i + 1] <= 0xBF && is_cont(s[i + 2]) && valid_utf8_from(
                s,
                i + 3,
            )
        } else if b0 == 0xED {
            i + 2 < s.len() && 0x80 <= s[i + 1] <= 0x9F && is_cont(s[i + 2]) && valid_utf8_from(
                s,
                i + 3,
            )
        } else if 0xE1 <= b0 <= 0xEF {
            i + 2 < s.len() && is_cont(s[i + 1]) && is_cont(s[i + 2]) && valid_utf8_from(s, i + 3)
        } else if b0 == 0xF0 {
            i + 3 < s.len() && 0x90 <= s[i + 1] <= 0xBF && is_cont(s[i + 2]) && is_cont(s[i + 3])
                && valid_utf8_from(s, i + 4)
        } else if 0xF1 <= b0 <= 0xF3 {
            i + 3 < s.len() && is_cont(s[i + 1]) && is_cont(s[i + 2]) && is_cont(s[i + 3])
                && valid_utf8_from(s, i + 4)
        } else if b0 == 0xF4 {
            i + 3 < s.len() && 0x80 <= s[i + 1] <= 0x8F && is_cont(s[i + 2]) && is_cont(s[i + 3])
                && valid_utf8_from(s, i + 4)
        } else {
            false
        }
    }
}

/// Whether `s` is well-formed UTF-8 text.
pub open spec fn is_utf8(s: Seq<u8>) -> bool {
    valid_utf8_from(s, 0)
}

/// Checks that `s` is well-formed UTF-8.
pub fn validate_utf8(s: &[u8]) -> (r: bool)
    ensures
        r == is_utf8(s@),
{
    let n = s.len();
    let mut i: usize = 0;
    loop
        invariant
            0 <= i <= n,
            n == s@.len(),
            is_utf8(s@) == valid_utf8_from(s@, i as int),
        decreases n - i,
    {
        if i >= n {
            return true;
        }
        let b0 = s[i];
        if b0 < 0x80 {
            i = i + 1;
        } else if 0xC2 <= b0 && b0 <= 0xDF {
            if !(i + 1 < n && 0x80 <= s[i + 1] && s[i + 1] <= 0xBF) {
                return false;
            }
            i = i + 2;
        } else if b0 == 0xE0 {
            if !(n - i > 2 && 0xA0 <= s[i + 1] && s[i + 1] <= 0xBF && 0x80 <= s[i + 2] && s[i + 2]
                <= 0xBF) {
                return false;
            }
            i = i + 3;
        } else if b0 == 0xED {
            if !(n - i > 2 && 0x80 <= s[i + 1] && s[i + 1] <= 0x9F && 0x80 <= s[i + 2] && s[i + 2]
                <= 0xBF) {
                return false;
            }
            i = i + 3;
        } else if 0xE1 <= b0 && b0 <= 0xEF {
            if !(n - i > 2 && 0x80 <= s[i + 1] && s[i + 1] <= 0xBF && 0x80 <= s[i + 2] && s[i + 2]
                <= 0xBF) {
                return false;
            }
            i = i + 3;
        } else if b0 == 0xF0 {
            if !(n - i > 3 && 0x90 <= s[i + 1] && s[i + 1] <= 0xBF && 0x80 <= s[i + 2] && s[i + 2]
                <= 0xBF && 0x80 <= s[i + 3] && s[i + 3] <= 0xBF) {
                return false;
            }
            i = i + 4;
        } else if 0xF1 <= b0 && b0 <= 0xF3 {
            if !(n - i > 3 && 0x80 <= s[i + 1] && s[i + 1] <= 0xBF && 0x80 <= s[i + 2] && s[i + 2]
                <= 0xBF && 0x80 <= s[i + 3] && s[i + 3] <= 0xBF) {
                return false;
            }
            i = i + 4;
        } else if b0 == 0xF4 {
            if !(n - i > 3 && 0x80 <= s[i + 1] && s[i + 1] <= 0x8F && 0x80 <= s[i + 2] && s[i + 2]
                <= 0xBF && 0x80 <= s[i + 3] && s[i + 3] <= 0xBF) {
                return false;
            }
            i = i + 4;
        } else {
            return false;
        }
    }
}

/// Pure ASCII bytes are well-formed UTF-8.
pub proof fn lemma_ascii_is_utf8(s: Seq<u8>, i: int)
    requires
        0 <= i <= s.len(),
        forall|j: int| 0 <= j < s.len() ==> #[trigger] s[j] < 0x80,
    ensures
        valid_utf8_from(s, i),
    decreases s.len() - i,
{
    if i < s.len() {
        lemma_ascii_is_utf8(s, i + 1);
    }
}

} // verus!
