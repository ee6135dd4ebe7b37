use vstd::prelude::*;

verus! {

/// The canonical decimal rendering of `n` as ASCII digit bytes:
/// no sign, no leading zeros (`0` renders as the single digit `0`).
pub open spec fn dec_digits(n: nat) -> Seq<u8>
    decreases n,
{
    if n < 10 {
        seq![(48 + n) as u8]
    } else {
        dec_digits(n / 10) + seq![(48 + n % 10) as u8]
    }
}

/// Whether `s` is a non-empty run of ASCII decimal digits.
pub open spec fn is_digits(s: Seq<u8>) -> bool {
    s.len() > 0 && forall|i: int| 0 <= i < s.len() ==> 48 <= #[trigger] s[i] <= 57
}

/// The value of a run of ASCII digits, most significant first.
pub open spec fn dec_value(s: Seq<u8>) -> nat
    decreases s.len(),
{
    if s.len() == 0 {
        0
    } else {
        (dec_value(s.drop_last()) * 10 + (s.last() - 48)) as nat
    }
}

/// The canonical rendering consists of digits only.
pub proof fn lemma_dec_digits_are_digits(n: nat)
    ensures
        is_digits(dec_digits(n)),
    decreases n,
{
    if n >= 10 {
        lemma_dec_digits_are_digits(n / 10);
    }
}

/// Reading the canonical rendering back gives the number it renders.
pub proof fn lemma_dec_digits_value(n: nat)
    ensures
        dec_value(dec_digits(n)) == n,
    decreases n,
{
    if n < 10 {
        assert(dec_digits(n).drop_last() =~= Seq::<u8>::empty());
        assert(dec_value(Seq::<u8>::empty()) == 0);
        assert(dec_digits(n).len() == 1);
        assert(dec_value(dec_digits(n)) == (dec_value(dec_digits(n).drop_last()) * 10 + (
        dec_digits(n).last() - 48)) as nat);
        assert(dec_digits(n).last() == (48 + n) as u8);
        assert(((48 + n) as u8) as int == 48 + n);
    } else {
        assert(dec_digits(n).len() > 0);
        assert(dec_value(dec_digits(n)) == (dec_value(dec_digits(n).drop_last()) * 10 + (
        dec_digits(n).last() - 48)) as nat);
        lemma_dec_digits_value(n / 10);
        assert(dec_digits(n).drop_last() =~= dec_digits(n / 10));
        assert(dec_digits(n).last() == (48 + n % 10) as u8);
        assert(((48 + n % 10) as u8) as int == 48 + (n % 10) as int);
        assert((n / 10) * 10 + n % 10 == n);
    }
}

/// The canonical rendering never starts with the digit zero unless the
/// number is zero itself.
pub proof fn lemma_dec_digits_no_leading_zero(n: nat)
    ensures
        dec_digits(n).len() > 0,
        n > 0 ==> dec_digits(n)[0] != 48,
        n == 0 ==> dec_digits(n) == seq![48u8],
    decreases n,
{
    if n >= 10 {
        lemma_dec_digits_no_leading_zero(n / 10);
        assert(dec_digits(n)[0] == dec_digits(n / 10)[0]);
    }
}

/// Renders `n` as decimal ASCII digits.
pub fn to_decimal(n: usize) -> (r: Vec<u8>)
    ensures
        r@ == dec_digits(n as nat),
    decreases n,
{
    if n < 10 {
        let mut v: Vec<u8> = Vec::new();
        v.push(48 + n as u8);
        proof {
            assert(v@ =~= dec_digits(n as nat));
        }
        v
    } else {
        let mut v = to_decimal(n / 10);
        v.push(48 + (n % 10) as u8);
        proof {
            assert(v@ =~= dec_digits(n as nat));
        }
        v
    }
}

/// A longer run of digits never has a smaller value: appending a digit
/// multiplies by ten and adds a non-negative amount.
proof fn lemma_dec_value_prefix_le(s: Seq<u8>, j: int)
    requires
        0 <= j <= s.len(),
        is_digits(s),
    ensures
        dec_value(s.subrange(0, j)) <= dec_value(s),
    decreases s.len() - j,
{
    if j < s.len() {
        lemma_dec_value_prefix_le(s, j + 1);
        let a = s.subrange(0, j);
        let b = s.subrange(0, j + 1);
        assert(b.drop_last() =~= a);
        assert(dec_value(b) == dec_value(a) * 10 + (b.last() - 48));
    } else {
        assert(s.subrange(0, j) =~= s);
    }
}

/// Parses a run of ASCII digits as a decimal number. Returns `None` when
/// the bytes are not a non-empty digit run or the value does not fit in
/// `usize`.
pub fn parse_decimal(s: &[u8]) -> (r: Option<usize>)
    ensures
        r is Some <==> is_digits(s@) && dec_value(s@) <= usize::MAX,
        r is Some ==> r->0 == dec_value(s@),
{
    if s.len() == 0 {
        return None;
    }
    let mut acc: usize = 0;
    let mut i: usize = 0;
    while i < s.len()
        invariant
            0 <= i <= s@.len(),
            forall|j: int| 0 <= j < i ==> 48 <= #[trigger] s@[j] <= 57,
            acc == dec_value(s@.subrange(0, i as int)),
        decreases s@.len() - i,
    {
        let b = s[i];
        if b < 48 || b > 57 {
            return None;
        }
        let d = (b - 48) as usize;
        if acc > (usize::MAX - d) / 10 {
            proof {
                let p = s@.subrange(0, i as int + 1);
                assert(p.drop_last() =~= s@.subrange(0, i as int));
                assert(dec_value(p) == acc * 10 + d);
                assert(acc * 10 + d > usize::MAX) by {
                    assert(acc >= (usize::MAX - d) / 10 + 1);
                    assert(((usize::MAX - d) / 10 + 1) * 10 >= usize::MAX - d + 1) by (nonlinear_arith);
                    assert(acc * 10 >= ((usize::MAX - d) / 10 + 1) * 10) by (nonlinear_arith)
                        requires
                            acc >= (usize::MAX - d) / 10 + 1,
                    ;
                };
                if is_digits(s@) {
                    lemma_dec_value_prefix_le(s@, i as int + 1);
                }
            }
            return None;
        }
        proof {
            let p = s@.subrange(0, i as int + 1);
            assert(p.drop_last() =~= s@.subrange(0, i as int));
            assert(acc * 10 <= ((usize::MAX - d) / 10) * 10 <= usize::MAX - d) by (nonlinear_arith)
                requires
                    acc <= (usize::MAX - d) / 10,
                    d <= usize::MAX,
            ;
        }
        acc = acc * 10 + d;
        i = i + 1;
    }
    proof {
        assert(s@.subrange(0, s@.len() as int) =~= s@);
    }
    Some(acc)
}

} // verus!
