//! Decimal digit strings and their values.

use vstd::prelude::*;

verus! {

/// An ASCII decimal digit.
pub open spec fn is_digit(b: u8) -> bool {
    48 <= b && b <= 57
}

/// Every byte of `s` is a decimal digit.
pub open spec fn all_digits(s: Seq<u8>) -> bool {
    forall|i: int| 0 <= i < s.len() ==> is_digit(#[trigger] s[i])
}

/// The value of one digit byte; a byte that is no digit counts zero.
pub open spec fn dval(b: u8) -> nat {
    if is_digit(b) {
        (b - 48) as nat
    } else {
        0
    }
}

/// The value of a decimal digit string.
pub open spec fn digits_val(s: Seq<u8>) -> nat
    decreases s.len(),
{
    if s.len() == 0 {
        0
    } else {
        digits_val(s.drop_last()) * 10 + dval(s.last())
    }
}

/// Ten to the `k`.
pub open spec fn pow10(k: nat) -> nat
    decreases k,
{
    if k == 0 {
        1
    } else {
        10 * pow10((k - 1) as nat)
    }
}

pub proof fn lemma_pow10_pos(k: nat)
    ensures
        pow10(k) >= 1,
    decreases k,
{
    if k > 0 {
        lemma_pow10_pos((k - 1) as nat);
    }
}

/// A digit string's value, split off at its first byte.
pub proof fn lemma_digits_val_front(s: Seq<u8>)
    requires
        s.len() > 0,
    ensures
        digits_val(s) == dval(s[0]) * pow10((s.len() - 1) as nat) + digits_val(s.drop_first()),
    decreases s.len(),
{
    if s.len() == 1 {
        assert(s.drop_last() =~= Seq::empty());
        assert(s.drop_first() =~= Seq::empty());
        assert(digits_val(s) == digits_val(Seq::empty()) * 10 + dval(s.last()));
        assert(pow10(0) == 1);
        assert(digits_val(s) == dval(s[0]) * 1 + 0);
    } else {
        let dl = s.drop_last();
        let df = s.drop_first();
        lemma_digits_val_front(dl);
        assert(dl.drop_first() =~= df.drop_last());
        assert(dl[0] == s[0]);
        assert(df.last() == s.last());
        let p = pow10((s.len() - 2) as nat);
        assert(digits_val(s) == (dval(s[0]) * p + digits_val(df.drop_last())) * 10 + dval(
            s.last(),
        ));
        assert((dval(s[0]) * p + digits_val(df.drop_last())) * 10 == dval(s[0]) * (p * 10)
            + digits_val(df.drop_last()) * 10) by (nonlinear_arith);
        assert(pow10((s.len() - 1) as nat) == 10 * p);
        assert(dval(s[0]) * (p * 10) == dval(s[0]) * pow10((s.len() - 1) as nat)) by (
        nonlinear_arith)
            requires
                pow10((s.len() - 1) as nat) == p * 10 || pow10((s.len() - 1) as nat) == 10 * p,
        ;
        assert(digits_val(df) == digits_val(df.drop_last()) * 10 + dval(s.last()));
        assert(digits_val(s) == dval(s[0]) * pow10((s.len() - 1) as nat) + digits_val(df));
    }
}

/// The value of a digit string never shrinks as digits are appended.
pub proof fn lemma_digits_val_monotone(s: Seq<u8>, i: int, j: int)
    requires
        0 <= i <= j <= s.len(),
    ensures
        digits_val(s.take(i)) <= digits_val(s.take(j)),
    decreases j - i,
{
    if i < j {
        lemma_digits_val_monotone(s, i, j - 1);
        assert(s.take(j).drop_last() =~= s.take(j - 1));
        assert(digits_val(s.take(j - 1)) <= digits_val(s.take(j)));
    }
}

/// Parse a digit string (an optional leading `+`, then decimal digits) as
/// `usize`; anything malformed or out of range is `None`.  This mirrors how
/// `usize` values are read from untrusted header text.
pub open spec fn parse_usize_spec(s: Seq<u8>) -> Option<usize> {
    let d = if s.len() > 0 && s[0] == 43 {
        s.drop_first()
    } else {
        s
    };
    if d.len() > 0 && all_digits(d) && digits_val(d) <= usize::MAX {
        Some(digits_val(d) as usize)
    } else {
        None
    }
}

/// Parse an optionally `+`-signed decimal byte string as `usize`.
pub fn parse_usize_bytes(b: &[u8]) -> (r: Option<usize>)
    ensures
        r == parse_usize_spec(b@),
{
    let len = b.len();
    let off: usize = if len > 0 && b[0] == 43 {
        1
    } else {
        0
    };
    let ghost d: Seq<u8> = if b@.len() > 0 && b@[0] == 43 {
        b@.drop_first()
    } else {
        b@
    };
    proof {
        assert(d.len() == len - off);
        assert(forall|j: int| 0 <= j < d.len() ==> d[j] == b@[off + j]);
    }
    if len == off {
        return None;
    }
    let mut val: usize = 0;
    let mut i: usize = off;
    while i < len
        invariant
            len == b@.len(),
            off <= i <= len,
            off < len,
            off <= 1,
            d == (if b@.len() > 0 && b@[0] == 43 { b@.drop_first() } else { b@ }),
            off == (if b@.len() > 0 && b@[0] == 43 { 1int } else { 0int }),
            d.len() == len - off,
            forall|j: int| 0 <= j < d.len() ==> d[j] == b@[off + j],
            forall|j: int| 0 <= j < i - off ==> is_digit(#[trigger] d[j]),
            val == digits_val(d.take(i - off)),
        decreases len - i,
    {
        let c = b[i];
        if !(48 <= c && c <= 57) {
            proof {
                assert(!is_digit(d[i - off]));
            }
            return None;
        }
        let dd = (c - 48) as usize;
        proof {
            assert(d.take(i - off + 1).drop_last() =~= d.take(i - off));
            assert(d.take(i - off + 1).last() == d[i - off]);
        }
        if val > usize::MAX / 10 || (val == usize::MAX / 10 && dd > usize::MAX % 10) {
            proof {
                assert(usize::MAX == 10 * (usize::MAX as int / 10) + (usize::MAX as int % 10));
                assert(digits_val(d.take(i - off + 1)) > usize::MAX);
                lemma_digits_val_monotone(d, i - off + 1, d.len() as int);
                assert(d.take(d.len() as int) =~= d);
                assert(digits_val(d) > usize::MAX);
            }
            return None;
        }
        val = val * 10 + dd;
        i += 1;
    }
    proof {
        assert(d.take(d.len() as int) =~= d);
    }
    Some(val)
}

} // verus!
