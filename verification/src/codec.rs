use vstd::prelude::*;

use crate::error::StoreError;
use crate::kind::{kind_of_name, Kind};
use crate::numerals::{dec_digits, dec_value, is_digits, parse_decimal, to_decimal};
use crate::numerals::{lemma_dec_digits_are_digits, lemma_dec_digits_value};
use crate::utf8::{is_utf8, lemma_ascii_is_utf8, validate_utf8};

verus! {

/// The canonical framed byte sequence of an object: the kind's lowercase
/// name, one space, the payload length in decimal with no leading zeros, a
/// single NUL byte, and the payload itself. This exact sequence is what is
/// hashed and what is compressed.
pub open spec fn frame(k: Kind, payload: Seq<u8>) -> Seq<u8> {
    k.spec_name() + seq![32u8] + dec_digits(payload.len()) + seq![0u8] + payload
}

/// Index of the first occurrence of `b` in `s`, if any.
pub open spec fn first_pos(s: Seq<u8>, b: u8) -> Option<int>
    decreases s.len(),
{
    if s.len() == 0 {
        None
    } else if s[0] == b {
        Some(0int)
    } else {
        match first_pos(s.drop_first(), b) {
            Some(i) => Some(i + 1),
            None => None,
        }
    }
}

/// `first_pos` finds exactly the first occurrence: the found index holds
/// `b`, nothing before it does, and `None` means `b` never occurs.
pub proof fn lemma_first_pos(s: Seq<u8>, b: u8)
    ensures
        match first_pos(s, b) {
            Some(i) => 0 <= i < s.len() && s[i] == b && forall|j: int| 0 <= j < i ==> s[j] != b,
            None => forall|j: int| 0 <= j < s.len() ==> s[j] != b,
        },
    decreases s.len(),
{
    if s.len() > 0 && s[0] != b {
        lemma_first_pos(s.drop_first(), b);
        match first_pos(s.drop_first(), b) {
            Some(i2) => {
                assert(first_pos(s, b) == Some(i2 + 1));
                assert(s.drop_first()[i2] == s[i2 + 1]);
                assert forall|j: int| 0 <= j < i2 + 1 implies s[j] != b by {
                    if j > 0 {
                        assert(s.drop_first()[j - 1] == s[j]);
                        assert(s.drop_first()[j - 1] != b);
                    }
                }
            },
            None => {
                assert forall|j: int| 0 <= j < s.len() implies s[j] != b by {
                    if j > 0 {
                        assert(s.drop_first()[j - 1] == s[j]);
                        assert(s.drop_first()[j - 1] != b);
                    }
                }
            },
        }
    }
}

/// The meaning of decoding a complete byte sequence as one object.
///
/// Decoding scans for the header's NUL terminator, requires the header to
/// be UTF-8 text split by the first space into a kind token and a size
/// token, and then requires the declared size to account for every
/// remaining byte: fewer bytes than declared is `InvalidSize`, any byte
/// beyond the declared size is `TrailingData`.
pub open spec fn spec_decode(data: Seq<u8>) -> Result<(Kind, Seq<u8>), StoreError> {
    match first_pos(data, 0u8) {
        None => Err(StoreError::MalformedHeader),
        Some(n) => {
            let h = data.subrange(0, n);
            if !is_utf8(h) {
                Err(StoreError::MalformedHeader)
            } else {
                match first_pos(h, 32u8) {
                    None => Err(StoreError::MalformedHeader),
                    Some(sp) => {
                        let kt = h.subrange(0, sp);
                        let st = h.subrange(sp + 1, h.len() as int);
                        match kind_of_name(kt) {
                            None => Err(StoreError::UnknownKind),
                            Some(k) => {
                                if !(is_digits(st) && dec_value(st) <= usize::MAX) {
                                    Err(StoreError::InvalidSize)
                                } else {
                                    let body = data.subrange(n + 1, data.len() as int);
                                    if body.len() < dec_value(st) {
                                        Err(StoreError::InvalidSize)
                                    } else if body.len() > dec_value(st) {
                                        Err(StoreError::TrailingData)
                                    } else {
                                        Ok((k, body))
                                    }
                                }
                            },
                        }
                    },
                }
            }
        },
    }
}

/// Serializes an object as its canonical framed bytes.
pub fn encode_object(k: Kind, payload: &[u8]) -> (r: Vec<u8>)
    ensures
        r@ == frame(k, payload@),
        payload@.len() <= usize::MAX,
{
    let mut out: Vec<u8> = Vec::new();
    k.push_name(&mut out);
    out.push(32);
    let mut digits = to_decimal(payload.len());
    out.append(&mut digits);
    out.push(0);
    out.extend_from_slice(payload);
    proof {
        assert(out@ =~= frame(k, payload@));
    }
    out
}

/// Copies `s[from..to]` into a fresh vector.
fn copy_range(s: &[u8], from: usize, to: usize) -> (r: Vec<u8>)
    requires
        from <= to <= s@.len(),
    ensures
        r@ == s@.subrange(from as int, to as int),
{
    let mut r: Vec<u8> = Vec::new();
    let mut i: usize = from;
    while i < to
        invariant
            from <= i <= to <= s@.len(),
            r@ == s@.subrange(from as int, i as int),
        decreases to - i,
    {
        r.push(s[i]);
        i = i + 1;
        proof {
            assert(r@ =~= s@.subrange(from as int, i as int));
        }
    }
    r
}

/// Finds the first occurrence of `b` in `s`, if any.
fn find_byte(s: &[u8], b: u8) -> (r: Option<usize>)
    ensures
        match r {
            Some(i) => {
                &&& first_pos(s@, b) == Some(i as int)
                &&& i < s@.len()
                &&& s@[i as int] == b
                &&& forall|j: int| 0 <= j < i ==> s@[j] != b
            },
            None => first_pos(s@, b) is None && forall|j: int| 0 <= j < s@.len() ==> s@[j] != b,
        },
{
    let n = s.len();
    let mut i: usize = 0;
    while i < n
        invariant
            0 <= i <= n,
            n == s@.len(),
            forall|j: int| 0 <= j < i ==> s@[j] != b,
        decreases n - i,
    {
        if s[i] == b {
            proof {
                lemma_first_pos(s@, b);
                if first_pos(s@, b) is None {
                    assert(s@[i as int] != b);
                }
                let fp = first_pos(s@, b)->0;
                if fp < i {
                    assert(s@[fp] != b);
                }
                if fp > i {
                    assert(s@[i as int] != b);
                }
            }
            return Some(i);
        }
        i = i + 1;
    }
    proof {
        lemma_first_pos(s@, b);
    }
    None
}

/// Parses one complete framed byte sequence back into an object,
/// reporting exactly the failure `spec_decode` assigns to the input.
pub fn decode_object(data: &[u8]) -> (r: Result<(Kind, Vec<u8>), StoreError>)
    ensures
        spec_decode(data@) matches Ok(kp) ==> r is Ok && r->Ok_0.0 == kp.0 && r->Ok_0.1@ == kp.1,
        spec_decode(data@) matches Err(e) ==> r == Err::<(Kind, Vec<u8>), StoreError>(e),
{
    let n = match find_byte(data, 0) {
        Some(n) => n,
        None => {
            return Err(StoreError::MalformedHeader);
        },
    };
    let header = copy_range(data, 0, n);
    if !validate_utf8(header.as_slice()) {
        return Err(StoreError::MalformedHeader);
    }
    let sp = match find_byte(header.as_slice(), 32) {
        Some(sp) => sp,
        None => {
            return Err(StoreError::MalformedHeader);
        },
    };
    proof {
        lemma_first_pos(header@, 32);
    }
    let kind_token = copy_range(header.as_slice(), 0, sp);
    let k = match crate::kind::parse_kind(kind_token.as_slice()) {
        Some(k) => k,
        None => {
            return Err(StoreError::UnknownKind);
        },
    };
    let size_token = copy_range(header.as_slice(), sp + 1, header.len());
    let size = match parse_decimal(size_token.as_slice()) {
        Some(size) => size,
        None => {
            return Err(StoreError::InvalidSize);
        },
    };
    let data_len = data.len();
    let body = copy_range(data, n + 1, data_len);
    if body.len() < size {
        Err(StoreError::InvalidSize)
    } else if body.len() > size {
        Err(StoreError::TrailingData)
    } else {
        Ok((k, body))
    }
}

/// Every byte of a kind's canonical name is a lowercase ASCII letter.
proof fn lemma_name_bytes(k: Kind)
    ensures
        forall|j: int|
            0 <= j < k.spec_name().len() ==> 97 <= #[trigger] k.spec_name()[j] <= 116,
{
    let name = k.spec_name();
    match k {
        Kind::Blob => {
            assert forall|j: int| 0 <= j < name.len() implies 97 <= #[trigger] name[j] <= 116 by {
                assert(name[0] == 98u8);
                assert(name[1] == 108u8);
                assert(name[2] == 111u8);
                assert(name[3] == 98u8);
            }
        },
        Kind::Tree => {
            assert forall|j: int| 0 <= j < name.len() implies 97 <= #[trigger] name[j] <= 116 by {
                assert(name[0] == 116u8);
                assert(name[1] == 114u8);
                assert(name[2] == 101u8);
                assert(name[3] == 101u8);
            }
        },
        Kind::Commit => {
            assert forall|j: int| 0 <= j < name.len() implies 97 <= #[trigger] name[j] <= 116 by {
                assert(name[0] == 99u8);
                assert(name[1] == 111u8);
                assert(name[2] == 109u8);
                assert(name[3] == 109u8);
                assert(name[4] == 105u8);
                assert(name[5] == 116u8);
            }
        },
        Kind::Tag => {
            assert forall|j: int| 0 <= j < name.len() implies 97 <= #[trigger] name[j] <= 116 by {
                assert(name[0] == 116u8);
                assert(name[1] == 97u8);
                assert(name[2] == 103u8);
            }
        },
    }
}

/// Round trip of the codec: the canonical framed bytes of any object
/// decode back to exactly that object, with no error.
#[verifier::rlimit(100)]
pub proof fn lemma_frame_decode(k: Kind, p: Seq<u8>)
    requires
        p.len() <= usize::MAX,
    ensures
        spec_decode(frame(k, p)) == Ok::<(Kind, Seq<u8>), StoreError>((k, p)),
{
    let f = frame(k, p);
    let name = k.spec_name();
    let d = dec_digits(p.len());
    let hl = name.len() + 1 + d.len();
    lemma_name_bytes(k);
    lemma_dec_digits_are_digits(p.len());
    lemma_dec_digits_value(p.len());

    assert(f.len() == hl + 1 + p.len());
    assert(f[hl as int] == 0u8);
    assert forall|j: int| 0 <= j < hl implies f[j] != 0u8 by {
        if j < name.len() {
            assert(f[j] == name[j]);
        } else if j == name.len() {
            assert(f[j] == 32u8);
        } else {
            assert(f[j] == d[j - name.len() - 1]);
        }
    }
    lemma_first_pos(f, 0u8);
    match first_pos(f, 0u8) {
        None => {
            assert(false);
        },
        Some(i) => {
            assert(i == hl) by {
                if i < hl {
                    assert(f[i] != 0u8);
                }
                if i > hl {
                    assert(f[hl as int] == 0u8);
                }
            }
        },
    }
    let h = f.subrange(0, hl as int);
    assert(h =~= name + seq![32u8] + d);

    assert forall|j: int| 0 <= j < h.len() implies #[trigger] h[j] < 0x80 by {
        if j < name.len() {
            assert(h[j] == name[j]);
        } else if j == name.len() {
            assert(h[j] == 32u8);
        } else {
            assert(h[j] == d[j - name.len() - 1]);
        }
    }
    lemma_ascii_is_utf8(h, 0);

    assert(h[name.len() as int] == 32u8);
    assert forall|j: int| 0 <= j < name.len() implies h[j] != 32u8 by {
        assert(h[j] == name[j]);
    }
    lemma_first_pos(h, 32u8);
    match first_pos(h, 32u8) {
        None => {
            assert(false);
        },
        Some(sp) => {
            assert(sp == name.len()) by {
                if sp < name.len() {
                    assert(h[sp] != 32u8);
                }
                if sp > name.len() {
                    assert(h[name.len() as int] == 32u8);
                }
            }
            let kt = h.subrange(0, sp);
            let st = h.subrange(sp + 1, h.len() as int);
            assert(kt =~= name);
            assert(st =~= d);
            assert(kind_of_name(name) == Some(k)) by {
                assert(Kind::Blob.spec_name()[0] == 98u8);
                assert(Kind::Tree.spec_name()[0] == 116u8);
                assert(Kind::Commit.spec_name()[0] == 99u8);
                assert(Kind::Tag.spec_name()[0] == 116u8);
                assert(Kind::Tree.spec_name()[1] == 114u8);
                assert(Kind::Tag.spec_name()[1] == 97u8);
                assert(Kind::Blob.spec_name().len() == 4);
                assert(Kind::Tree.spec_name().len() == 4);
                assert(Kind::Commit.spec_name().len() == 6);
                assert(Kind::Tag.spec_name().len() == 3);
            }
            assert(dec_value(st) == p.len());
            let body = f.subrange(hl as int + 1, f.len() as int);
            assert(body =~= p);
        },
    }
}

} // verus!
