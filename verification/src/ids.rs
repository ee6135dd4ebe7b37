use vstd::prelude::*;
use vstd::string::StrSliceExecFns;

use crate::digest::{hex_digit, hex_of};
use crate::error::StoreError;

verus! {

/// Whether `c` is a lowercase hexadecimal digit.
pub open spec fn is_hex_char(c: char) -> bool {
    (48 <= c as u32 && c as u32 <= 57) || (97 <= c as u32 && c as u32 <= 102)
}

/// A syntactically valid object identifier: exactly 40 lowercase
/// hexadecimal characters.
pub open spec fn is_valid_id(s: Seq<char>) -> bool {
    s.len() == 40 && forall|i: int| 0 <= i < s.len() ==> is_hex_char(#[trigger] s[i])
}

/// The hexadecimal encoding of a 20-byte digest is a valid identifier.
pub proof fn lemma_hex_id_valid(data: Seq<u8>)
    requires
        data.len() == 20,
    ensures
        is_valid_id(hex_of(data)),
{
    assert forall|i: int| 0 <= i < hex_of(data).len() implies is_hex_char(
        #[trigger] hex_of(data)[i],
    ) by {
        let m = if i % 2 == 0 {
            data[i / 2] as int / 16
        } else {
            data[i / 2] as int % 16
        };
        assert(0 <= m < 16);
        assert(hex_of(data)[i] == hex_digit(m));
        assert(is_hex_char(hex_digit(m)));
    }
}

/// Checks identifier syntax: 40 lowercase hexadecimal characters.
pub fn validate_id(s: &str) -> (b: bool)
    ensures
        b == is_valid_id(s@),
{
    let len = s.unicode_len();
    if len != 40 {
        return false;
    }
    let mut i: usize = 0;
    while i < 40
        invariant
            0 <= i <= 40,
            s@.len() == 40,
            forall|j: int| 0 <= j < i ==> is_hex_char(#[trigger] s@[j]),
        decreases 40 - i,
    {
        let c = s.get_char(i);
        let v = c as u32;
        if !((48 <= v && v <= 57) || (97 <= v && v <= 102)) {
            return false;
        }
        i = i + 1;
    }
    true
}

/// Splits a valid identifier into its on-disk path segments: the first
/// two characters name the directory under the objects tree, the other
/// thirty-eight name the file. Malformed identifiers are rejected before
/// any use of the result can touch a filesystem.
pub fn object_path_for(id: &str) -> (r: Result<(String, String), StoreError>)
    ensures
        is_valid_id(id@) ==> r is Ok && r->Ok_0.0@ == id@.subrange(0, 2) && r->Ok_0.1@
            == id@.subrange(2, 40),
        !is_valid_id(id@) ==> r == Err::<(String, String), StoreError>(
            StoreError::InvalidIdentifier,
        ),
{
    if !validate_id(id) {
        return Err(StoreError::InvalidIdentifier);
    }
    let dir = id.substring_char(0, 2).to_owned();
    let file = id.substring_char(2, 40).to_owned();
    Ok((dir, file))
}

} // verus!
