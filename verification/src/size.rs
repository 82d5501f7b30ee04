//! Byte quantities: units, the human-readable size parser, and the
//! `SizeLimit` wrapper.
//!
//! A size string such as `1.5MB`, `2,5 GiB` or `1024` is a decimal number
//! (period or comma as separator), optional whitespace, and an optional
//! unit.  The value is computed in exact fixed-point arithmetic — the
//! number times the unit's byte factor, rounded toward zero — and
//! saturates at `usize::MAX`.

use vstd::arithmetic::div_mod::{
    lemma_div_denominator, lemma_div_is_ordered, lemma_div_multiples_vanish_fancy,
    lemma_hoist_over_denominator,
};
use vstd::prelude::*;
use vstd::string::{StringExecFns, StringSliceAdditionalSpecFns};

use crate::digits::{
    digits_val, dval, is_digit, lemma_digits_val_front, lemma_pow10_pos, pow10,
};
use crate::normalize::{
    bytes_eq, lemma_prefix_len_until, lemma_prefix_len_until_unique, lower_bytes, lower_bytes_of,
    prefix_len_until, trim_lower_of, trim_spaces, trimmed_tail,
};

verus! {

/// A unit for expressing data sizes: decimal and binary byte units, and
/// bit units.
#[derive(Debug, Clone, Copy, PartialEq, Eq, Structural)]
pub enum SizeUnit {
    /// 1 byte.
    Bytes,
    /// 1,000 bytes.
    Kilobytes,
    /// 1,000,000 bytes.
    Megabytes,
    /// 1,000,000,000 bytes.
    Gigabytes,
    /// 1,024 bytes.
    Kibibytes,
    /// 1,048,576 bytes.
    Mebibytes,
    /// 1,073,741,824 bytes.
    Gibibytes,
    /// 1,000 bits = 125 bytes.
    Kilobits,
    /// 1,000,000 bits = 125,000 bytes.
    Megabits,
    /// 1,000,000,000 bits = 125,000,000 bytes.
    Gigabits,
}

/// The unit named by a lowercased byte string, if any.
pub open spec fn unit_of(s: Seq<u8>) -> Option<SizeUnit> {
    if s == "b".spec_bytes() || s == "byte".spec_bytes() || s == "bytes".spec_bytes() {
        Some(SizeUnit::Bytes)
    } else if s == "kb".spec_bytes() || s == "kilobyte".spec_bytes() || s
        == "kilobytes".spec_bytes() {
        Some(SizeUnit::Kilobytes)
    } else if s == "mb".spec_bytes() || s == "megabyte".spec_bytes() || s
        == "megabytes".spec_bytes() {
        Some(SizeUnit::Megabytes)
    } else if s == "gb".spec_bytes() || s == "gigabyte".spec_bytes() || s
        == "gigabytes".spec_bytes() {
        Some(SizeUnit::Gigabytes)
    } else if s == "kib".spec_bytes() || s == "kibibyte".spec_bytes() || s
        == "kibibytes".spec_bytes() {
        Some(SizeUnit::Kibibytes)
    } else if s == "mib".spec_bytes() || s == "mebibyte".spec_bytes() || s
        == "mebibytes".spec_bytes() {
        Some(SizeUnit::Mebibytes)
    } else if s == "gib".spec_bytes() || s == "gibibyte".spec_bytes() || s
        == "gibibytes".spec_bytes() {
        Some(SizeUnit::Gibibytes)
    } else if s == "kbit".spec_bytes() || s == "kilobit".spec_bytes() || s
        == "kilobits".spec_bytes() {
        Some(SizeUnit::Kilobits)
    } else if s == "mbit".spec_bytes() || s == "megabit".spec_bytes() || s
        == "megabits".spec_bytes() {
        Some(SizeUnit::Megabits)
    } else if s == "gbit".spec_bytes() || s == "gigabit".spec_bytes() || s
        == "gigabits".spec_bytes() {
        Some(SizeUnit::Gigabits)
    } else {
        None
    }
}

/// Bytes per one of the unit.
pub open spec fn unit_factor(u: SizeUnit) -> nat {
    match u {
        SizeUnit::Bytes => 1,
        SizeUnit::Kilobytes => 1000,
        SizeUnit::Megabytes => 1000000,
        SizeUnit::Gigabytes => 1000000000,
        SizeUnit::Kibibytes => 1024,
        SizeUnit::Mebibytes => 1048576,
        SizeUnit::Gibibytes => 1073741824,
        SizeUnit::Kilobits => 125,
        SizeUnit::Megabits => 125000,
        SizeUnit::Gigabits => 125000000,
    }
}

impl SizeUnit {
    /// Parse a unit name, case-insensitively: short forms (`kb`, `mib`,
    /// `gbit`) and long forms (`kilobyte`, `mebibytes`, `gigabits`).
    pub fn from_str(s: &str) -> (r: Option<Self>)
        ensures
            r == unit_of(lower_bytes(s.spec_bytes())),
    {
        let lowered = lower_bytes_of(s);
        unit_from_lower_bytes(&lowered)
    }
}

/// Bytes per one of the unit.
pub fn unit_multiplier(u: SizeUnit) -> (m: usize)
    ensures
        m == unit_factor(u),
        1 <= m <= 1073741824,
{
    match u {
        SizeUnit::Bytes => 1,
        SizeUnit::Kilobytes => 1000,
        SizeUnit::Megabytes => 1000000,
        SizeUnit::Gigabytes => 1000000000,
        SizeUnit::Kibibytes => 1024,
        SizeUnit::Mebibytes => 1048576,
        SizeUnit::Gibibytes => 1073741824,
        SizeUnit::Kilobits => 125,
        SizeUnit::Megabits => 125000,
        SizeUnit::Gigabits => 125000000,
    }
}

/// Whether `b` equals the bytes of a literal.
fn eq_lit(b: &Vec<u8>, lit: &str) -> (r: bool)
    ensures
        r == (b@ == lit.spec_bytes()),
{
    bytes_eq(b.as_slice(), lit.as_bytes())
}

/// The unit named by an already-lowercased byte string.
fn unit_from_lower_bytes(u: &Vec<u8>) -> (r: Option<SizeUnit>)
    ensures
        r == unit_of(u@),
{
    if eq_lit(u, "b") || eq_lit(u, "byte") || eq_lit(u, "bytes") {
        Some(SizeUnit::Bytes)
    } else if eq_lit(u, "kb") || eq_lit(u, "kilobyte") || eq_lit(u, "kilobytes") {
        Some(SizeUnit::Kilobytes)
    } else if eq_lit(u, "mb") || eq_lit(u, "megabyte") || eq_lit(u, "megabytes") {
        Some(SizeUnit::Megabytes)
    } else if eq_lit(u, "gb") || eq_lit(u, "gigabyte") || eq_lit(u, "gigabytes") {
        Some(SizeUnit::Gigabytes)
    } else if eq_lit(u, "kib") || eq_lit(u, "kibibyte") || eq_lit(u, "kibibytes") {
        Some(SizeUnit::Kibibytes)
    } else if eq_lit(u, "mib") || eq_lit(u, "mebibyte") || eq_lit(u, "mebibytes") {
        Some(SizeUnit::Mebibytes)
    } else if eq_lit(u, "gib") || eq_lit(u, "gibibyte") || eq_lit(u, "gibibytes") {
        Some(SizeUnit::Gibibytes)
    } else if eq_lit(u, "kbit") || eq_lit(u, "kilobit") || eq_lit(u, "kilobits") {
        Some(SizeUnit::Kilobits)
    } else if eq_lit(u, "mbit") || eq_lit(u, "megabit") || eq_lit(u, "megabits") {
        Some(SizeUnit::Megabits)
    } else if eq_lit(u, "gbit") || eq_lit(u, "gigabit") || eq_lit(u, "gigabits") {
        Some(SizeUnit::Gigabits)
    } else {
        None
    }
}

/// A byte that may belong to the number part: a digit, a period, or a
/// comma.
pub open spec fn is_num_byte(b: u8) -> bool {
    is_digit(b) || b == 46 || b == 44
}

/// Length of the leading run of number bytes.
pub open spec fn num_scan_len(s: Seq<u8>) -> int
    decreases s.len(),
{
    if s.len() == 0 {
        0
    } else if is_num_byte(s[0]) {
        1 + num_scan_len(s.drop_first())
    } else {
        0
    }
}

proof fn lemma_num_scan_len(s: Seq<u8>)
    ensures
        0 <= num_scan_len(s) <= s.len(),
        forall|i: int| 0 <= i < num_scan_len(s) ==> is_num_byte(s[i]),
        num_scan_len(s) < s.len() ==> !is_num_byte(s[num_scan_len(s)]),
    decreases s.len(),
{
    if s.len() != 0 && is_num_byte(s[0]) {
        lemma_num_scan_len(s.drop_first());
        assert forall|i: int| 0 <= i < num_scan_len(s) implies is_num_byte(s[i]) by {
            if i > 0 {
                assert(s.drop_first()[i - 1] == s[i]);
            }
        }
    }
}

proof fn lemma_num_scan_len_unique(s: Seq<u8>, n: int)
    requires
        0 <= n <= s.len(),
        forall|i: int| 0 <= i < n ==> is_num_byte(s[i]),
        n < s.len() ==> !is_num_byte(s[n]),
    ensures
        n == num_scan_len(s),
{
    lemma_num_scan_len(s);
    let p = num_scan_len(s);
    if n < p {
        assert(is_num_byte(s[n]));
    } else if p < n {
        assert(is_num_byte(s[p]));
    }
}

/// The number part with commas read as periods.
pub open spec fn commas_to_dots(s: Seq<u8>) -> Seq<u8> {
    s.map_values(|b: u8| if b == 44 { 46u8 } else { b })
}

/// How many periods the byte string holds.
pub open spec fn dot_count(s: Seq<u8>) -> int
    decreases s.len(),
{
    if s.len() == 0 {
        0
    } else {
        dot_count(s.drop_last()) + if s.last() == 46 {
            1int
        } else {
            0int
        }
    }
}

/// Whether the byte string holds at least one digit.
pub open spec fn has_digit(s: Seq<u8>) -> bool {
    exists|i: int| 0 <= i < s.len() && is_digit(#[trigger] s[i])
}

/// A well-formed decimal number: nonempty, digits and at most one period,
/// at least one digit.
pub open spec fn valid_decimal(m: Seq<u8>) -> bool {
    &&& m.len() > 0
    &&& forall|i: int| 0 <= i < m.len() ==> is_digit(#[trigger] m[i]) || m[i] == 46
    &&& dot_count(m) <= 1
    &&& has_digit(m)
}

proof fn lemma_dot_count_nonneg(s: Seq<u8>)
    ensures
        dot_count(s) >= 0,
    decreases s.len(),
{
    if s.len() > 0 {
        lemma_dot_count_nonneg(s.drop_last());
    }
}

proof fn lemma_dot_count_monotone(s: Seq<u8>, i: int, j: int)
    requires
        0 <= i <= j <= s.len(),
    ensures
        dot_count(s.take(i)) <= dot_count(s.take(j)),
    decreases j - i,
{
    if i < j {
        lemma_dot_count_monotone(s, i, j - 1);
        assert(s.take(j).drop_last() =~= s.take(j - 1));
    }
}

/// With at most one period in `s`, a period at `a` rules one out anywhere
/// later.
proof fn lemma_single_dot(s: Seq<u8>, a: int, b: int)
    requires
        dot_count(s) <= 1,
        0 <= a < b < s.len(),
        s[a] == 46,
    ensures
        s[b] != 46,
{
    if s[b] == 46 {
        assert(s.take(a + 1).drop_last() =~= s.take(a));
        assert(s.take(a + 1).last() == s[a]);
        lemma_dot_count_nonneg(s.take(a));
        assert(dot_count(s.take(a + 1)) >= 1);
        lemma_dot_count_monotone(s, a + 1, b);
        assert(s.take(b + 1).drop_last() =~= s.take(b));
        assert(s.take(b + 1).last() == s[b]);
        assert(dot_count(s.take(b + 1)) >= 2);
        lemma_dot_count_monotone(s, b + 1, s.len() as int);
        assert(s.take(s.len() as int) =~= s);
    }
}

/// The digits before the first period.
pub open spec fn int_part(m: Seq<u8>) -> Seq<u8> {
    m.take(prefix_len_until(m, 46))
}

/// The digits after the first period, if there is one.
pub open spec fn frac_part(m: Seq<u8>) -> Seq<u8> {
    if prefix_len_until(m, 46) < m.len() {
        m.skip(prefix_len_until(m, 46) + 1)
    } else {
        Seq::empty()
    }
}

/// The fractional digits scaled by `factor` and rounded toward zero,
/// digit by digit: each step accounts one further decimal place.
pub open spec fn frac_scaled(s: Seq<u8>, factor: nat) -> nat
    decreases s.len(),
{
    if s.len() == 0 {
        0
    } else {
        (dval(s[0]) * factor + frac_scaled(s.drop_first(), factor)) / 10
    }
}

/// The scaled fraction stays below one whole unit.
proof fn lemma_frac_scaled_lt(s: Seq<u8>, factor: nat)
    requires
        factor >= 1,
    ensures
        frac_scaled(s, factor) < factor,
    decreases s.len(),
{
    if s.len() > 0 {
        lemma_frac_scaled_lt(s.drop_first(), factor);
        let d = dval(s[0]);
        let q = frac_scaled(s.drop_first(), factor);
        assert(d <= 9);
        assert(d * factor <= 9 * factor) by (nonlinear_arith)
            requires
                d <= 9,
                factor >= 0,
        ;
        assert(d * factor + q <= 10 * factor - 1);
        lemma_div_multiples_vanish_fancy(factor as int - 1, 9, 10);
        assert((10 * (factor as int - 1) + 9) / 10 == factor - 1);
        assert(10 * (factor as int - 1) + 9 == 10 * factor - 1);
        lemma_div_is_ordered(d * factor as int + q as int, 10 * factor as int - 1, 10);
    }
}

/// Digit-by-digit scaling computes exactly the scaled value of the whole
/// fraction, rounded toward zero.
proof fn lemma_frac_scaled_eq(s: Seq<u8>, factor: nat)
    ensures
        frac_scaled(s, factor) == (digits_val(s) * factor) / pow10(s.len()),
    decreases s.len(),
{
    if s.len() == 0 {
        assert(pow10(0) == 1);
    } else {
        let rest = s.drop_first();
        let ll = (s.len() - 1) as nat;
        lemma_frac_scaled_eq(rest, factor);
        lemma_pow10_pos(ll);
        lemma_digits_val_front(s);
        let d = dval(s[0]) as int;
        let f = factor as int;
        let p = pow10(ll) as int;
        let dvr = digits_val(rest) as int;
        assert(digits_val(s) as int == d * p + dvr);
        assert(pow10(s.len()) == 10 * pow10(ll));
        assert((digits_val(s) as int) * f == (d * f) * p + dvr * f) by (nonlinear_arith)
            requires
                digits_val(s) as int == d * p + dvr,
        ;
        lemma_div_denominator((d * f) * p + dvr * f, p, 10);
        assert(((d * f) * p + dvr * f) / (p * 10) == (((d * f) * p + dvr * f) / p) / 10);
        lemma_hoist_over_denominator(dvr * f, d * f, p as nat);
        assert((dvr * f) / p + d * f == (dvr * f + (d * f) * p) / p);
        assert(frac_scaled(s, factor) == (d * f + (dvr * f) / p) / 10);
        assert((digits_val(s) * factor) as int / (pow10(s.len()) as int) == ((d * f) * p + dvr
            * f) / (p * 10));
    }
}

/// The byte count named by a decimal number and a unit factor: the whole
/// digits times the factor, plus the scaled fraction rounded toward zero.
pub open spec fn size_in_bytes(int_digits: Seq<u8>, frac_digits: Seq<u8>, factor: nat) -> nat {
    digits_val(int_digits) * factor + (digits_val(frac_digits) * factor) / pow10(
        frac_digits.len(),
    )
}

/// Clamp an unbounded count to `usize`.
pub open spec fn saturate_usize(n: nat) -> usize {
    if n > usize::MAX {
        usize::MAX
    } else {
        n as usize
    }
}

/// What parsing a size string yields: the byte count, or one of the four
/// error messages.  The input is trimmed and lowercased; the leading run
/// of digits, periods and commas is the number (commas read as periods);
/// what follows, trimmed, is the unit, bytes when absent.
pub open spec fn parse_size_spec(raw: Seq<u8>) -> Result<usize, Seq<char>> {
    let t = lower_bytes(trim_spaces(raw));
    if t.len() == 0 {
        Err("Empty size string"@)
    } else {
        let np = num_scan_len(t);
        if np == 0 {
            Err("No number found"@)
        } else {
            let m = commas_to_dots(t.take(np));
            if !valid_decimal(m) {
                Err("Invalid number"@)
            } else {
                let unit_part = trim_spaces(t.skip(np));
                let u = if unit_part.len() == 0 {
                    Some(SizeUnit::Bytes)
                } else {
                    unit_of(unit_part)
                };
                match u {
                    None => Err("Unknown unit"@),
                    Some(un) => Ok(
                        saturate_usize(size_in_bytes(int_part(m), frac_part(m), unit_factor(un))),
                    ),
                }
            }
        }
    }
}

/// Length of the leading run of number bytes.
fn scan_num(t: &Vec<u8>) -> (np: usize)
    ensures
        np as int == num_scan_len(t@),
        np <= t@.len(),
{
    let n = t.len();
    let mut i: usize = 0;
    while i < n && ((48 <= t[i] && t[i] <= 57) || t[i] == 46 || t[i] == 44)
        invariant
            n == t@.len(),
            i <= n,
            forall|j: int| 0 <= j < i ==> is_num_byte(#[trigger] t@[j]),
        decreases n - i,
    {
        i += 1;
    }
    proof {
        lemma_num_scan_len_unique(t@, i as int);
    }
    i
}

/// The number part, with commas turned into periods.
fn build_num(t: &Vec<u8>, np: usize) -> (m: Vec<u8>)
    requires
        np <= t@.len(),
    ensures
        m@ == commas_to_dots(t@.take(np as int)),
{
    let mut m: Vec<u8> = Vec::new();
    let mut i: usize = 0;
    while i < np
        invariant
            np <= t@.len(),
            i <= np,
            m@.len() == i as int,
            forall|j: int| 0 <= j < i ==> m@[j] == (if t@[j] == 44 {
                46u8
            } else {
                t@[j]
            }),
        decreases np - i,
    {
        let c = t[i];
        m.push(if c == 44 {
            46
        } else {
            c
        });
        i += 1;
    }
    proof {
        assert(m@ =~= commas_to_dots(t@.take(np as int)));
    }
    m
}

/// Whether the number part is a well-formed decimal.
fn check_decimal(m: &Vec<u8>) -> (ok: bool)
    ensures
        ok == valid_decimal(m@),
{
    let n = m.len();
    if n == 0 {
        return false;
    }
    let mut dots: usize = 0;
    let mut saw_digit = false;
    let mut i: usize = 0;
    while i < n
        invariant
            n == m@.len(),
            i <= n,
            dots <= i,
            dots == dot_count(m@.take(i as int)),
            saw_digit ==> has_digit(m@),
            !saw_digit ==> forall|j: int| 0 <= j < i ==> !is_digit(#[trigger] m@[j]),
            forall|j: int| 0 <= j < i ==> is_digit(#[trigger] m@[j]) || m@[j] == 46,
        decreases n - i,
    {
        let c = m[i];
        proof {
            assert(m@.take(i as int + 1).drop_last() =~= m@.take(i as int));
            assert(m@.take(i as int + 1).last() == m@[i as int]);
        }
        if c == 46 {
            dots += 1;
        } else if 48 <= c && c <= 57 {
            saw_digit = true;
        } else {
            proof {
                assert(!is_digit(m@[i as int]) && m@[i as int] != 46);
            }
            return false;
        }
        i += 1;
    }
    proof {
        assert(m@.take(n as int) =~= m@);
        if !saw_digit {
            assert(!has_digit(m@)) by {
                if has_digit(m@) {
                    let j = choose|j: int| 0 <= j < m@.len() && is_digit(#[trigger] m@[j]);
                    assert(!is_digit(m@[j]));
                }
            }
        }
    }
    dots <= 1 && saw_digit
}

/// Index of the first period.
fn split_dot(m: &Vec<u8>) -> (dp: usize)
    ensures
        dp as int == prefix_len_until(m@, 46),
{
    let n = m.len();
    let mut i: usize = 0;
    while i < n && m[i] != 46
        invariant
            n == m@.len(),
            i <= n,
            forall|j: int| 0 <= j < i ==> m@[j] != 46,
        decreases n - i,
    {
        i += 1;
    }
    proof {
        lemma_prefix_len_until_unique(m@, 46, i as int);
    }
    i
}

/// The saturated byte count of a well-formed decimal number scaled by a
/// unit factor.
fn scale_digits(m: &Vec<u8>, dp: usize, factor: usize) -> (r: usize)
    requires
        dp as int == prefix_len_until(m@, 46),
        forall|j: int| 0 <= j < m@.len() ==> is_digit(#[trigger] m@[j]) || m@[j] == 46,
        dot_count(m@) <= 1,
        1 <= factor <= 1073741824,
    ensures
        r == saturate_usize(size_in_bytes(int_part(m@), frac_part(m@), factor as nat)),
{
    let ml = m.len();
    proof {
        lemma_prefix_len_until(m@, 46);
        assert forall|j: int| 0 <= j < dp implies is_digit(#[trigger] m@[j]) by {
            assert(m@[j] != 46);
        }
        if (dp as int) < ml {
            assert(m@[dp as int] == 46);
            assert forall|j: int| dp < j < ml implies is_digit(#[trigger] m@[j]) by {
                lemma_single_dot(m@, dp as int, j);
            }
        }
    }
    let ghost intd = int_part(m@);
    let ghost fracd = frac_part(m@);
    proof {
        assert(intd =~= m@.take(dp as int));
    }

    let cap: u128 = (usize::MAX as u128) + 1;
    let mut iv: u128 = 0;
    let mut i: usize = 0;
    while i < dp
        invariant
            i <= dp,
            dp <= ml,
            ml == m@.len(),
            cap == (usize::MAX as u128) + 1,
            forall|j: int| 0 <= j < dp ==> is_digit(#[trigger] m@[j]),
            digits_val(m@.take(i as int)) <= usize::MAX ==> iv == digits_val(m@.take(i as int)),
            digits_val(m@.take(i as int)) > usize::MAX ==> iv == cap,
            iv <= cap,
        decreases dp - i,
    {
        let c = m[i];
        let d = (c - 48) as u128;
        proof {
            assert(is_digit(m@[i as int]));
            assert(m@.take(i as int + 1).drop_last() =~= m@.take(i as int));
            assert(m@.take(i as int + 1).last() == m@[i as int]);
            assert(dval(m@[i as int]) == d);
        }
        let next = iv * 10 + d;
        if next > usize::MAX as u128 {
            iv = cap;
        } else {
            iv = next;
        }
        i += 1;
    }
    proof {
        assert(m@.take(dp as int) == intd);
    }

    let fwide = factor as u128;
    let mut q: u128 = 0;
    if dp < ml {
        proof {
            assert(fracd =~= m@.skip(dp as int + 1));
            assert(m@.skip(ml as int) =~= Seq::<u8>::empty());
        }
        let mut k = ml;
        while k > dp + 1
            invariant
                dp + 1 <= k <= ml,
                ml == m@.len(),
                (dp as int) < ml,
                fwide == factor as u128,
                1 <= factor <= 1073741824,
                forall|j: int| dp < j < ml ==> is_digit(#[trigger] m@[j]),
                q == frac_scaled(m@.skip(k as int), factor as nat),
            decreases k,
        {
            k -= 1;
            let c = m[k];
            proof {
                assert(is_digit(m@[k as int]));
            }
            let d = (c - 48) as u128;
            proof {
                lemma_frac_scaled_lt(m@.skip(k as int + 1), factor as nat);
                assert(d * fwide <= 9 * fwide) by (nonlinear_arith)
                    requires
                        d <= 9,
                        fwide >= 0,
                ;
                assert(m@.skip(k as int).drop_first() =~= m@.skip(k as int + 1));
                assert(m@.skip(k as int)[0] == m@[k as int]);
                assert(dval(m@[k as int]) == d);
            }
            q = (d * fwide + q) / 10;
        }
        proof {
            assert(m@.skip(dp as int + 1) == fracd);
        }
    } else {
        proof {
            assert(fracd == Seq::<u8>::empty());
        }
    }
    proof {
        lemma_frac_scaled_eq(fracd, factor as nat);
        lemma_frac_scaled_lt(fracd, factor as nat);
        assert(q == (digits_val(fracd) * (factor as nat)) / pow10(fracd.len()));
        assert(q < factor);
    }

    let ghost sbn = size_in_bytes(intd, fracd, factor as nat);
    proof {
        assert(cap <= 0x10000000000000000u128);
        assert(iv * fwide <= 0x10000000000000000u128 * 0x40000000u128) by (nonlinear_arith)
            requires
                iv <= 0x10000000000000000u128,
                0 <= fwide <= 0x40000000u128,
        ;
    }
    let tot = iv * fwide + q;
    let r = if tot > usize::MAX as u128 {
        usize::MAX
    } else {
        tot as usize
    };
    proof {
        let dv = digits_val(intd);
        if dv <= usize::MAX {
            assert(iv == dv);
            assert(tot == sbn);
        } else {
            assert(iv == cap);
            assert(dv * (factor as nat) >= dv * 1) by (nonlinear_arith)
                requires
                    factor >= 1,
                    dv >= 0,
            ;
            assert(sbn > usize::MAX);
            assert(cap * fwide >= cap * 1) by (nonlinear_arith)
                requires
                    fwide >= 1,
                    cap >= 0,
            ;
            assert(tot > usize::MAX);
        }
    }
    r
}

/// Parse a human-readable size string such as `1.5MB`, `2,5 GiB`, `10Mbit`
/// or `1024` into a byte count.  The number may use a period or a comma as
/// its decimal separator; the unit is optional (bytes when absent) and
/// case-insensitive; the value is rounded toward zero and saturates at
/// `usize::MAX`.
#[verifier::rlimit(60)]
pub fn parse_human_size(size_str: &str) -> (r: Result<usize, String>)
    ensures
        (r is Ok) == (parse_size_spec(size_str.spec_bytes()) is Ok),
        r matches Ok(v) ==> parse_size_spec(size_str.spec_bytes()) == Ok::<usize, Seq<char>>(v),
        r matches Err(m) ==> parse_size_spec(size_str.spec_bytes()) == Err::<usize, Seq<char>>(
            m@,
        ),
{
    let t = trim_lower_of(size_str);
    if t.len() == 0 {
        return Err(String::from_str("Empty size string"));
    }
    let np = scan_num(&t);
    if np == 0 {
        return Err(String::from_str("No number found"));
    }
    let m = build_num(&t, np);
    if !check_decimal(&m) {
        return Err(String::from_str("Invalid number"));
    }
    let u = trimmed_tail(&t, np);
    let unit = if u.len() == 0 {
        SizeUnit::Bytes
    } else {
        match unit_from_lower_bytes(&u) {
            Some(un) => un,
            None => {
                return Err(String::from_str("Unknown unit"));
            },
        }
    };
    let factor = unit_multiplier(unit);
    let dp = split_dot(&m);
    let v = scale_digits(&m, dp, factor);
    Ok(v)
}

/// A size limit in bytes.
#[derive(Debug, Clone, Copy)]
pub struct SizeLimit(pub usize);

impl SizeLimit {
    /// A limit of exactly `bytes` bytes.
    pub fn bytes(bytes: usize) -> (r: Self)
        ensures
            r.0 == bytes,
    {
        SizeLimit(bytes)
    }
}

impl From<usize> for SizeLimit {
    fn from(bytes: usize) -> (r: Self) {
        SizeLimit(bytes)
    }
}

impl vstd::std_specs::convert::FromSpecImpl<usize> for SizeLimit {
    open spec fn obeys_from_spec() -> bool {
        true
    }

    open spec fn from_spec(v: usize) -> SizeLimit {
        SizeLimit(v)
    }
}

impl<'a> From<&'a str> for SizeLimit {
    /// The parsed byte count of a human-readable size string; a string
    /// that does not parse yields a zero-byte limit.
    fn from(s: &'a str) -> (r: Self) {
        match parse_human_size(s) {
            Ok(n) => SizeLimit(n),
            Err(_) => SizeLimit(0),
        }
    }
}

impl<'a> vstd::std_specs::convert::FromSpecImpl<&'a str> for SizeLimit {
    open spec fn obeys_from_spec() -> bool {
        true
    }

    open spec fn from_spec(v: &'a str) -> SizeLimit {
        SizeLimit(
            match parse_size_spec(v.spec_bytes()) {
                Ok(n) => n,
                Err(_) => 0,
            },
        )
    }
}

impl From<String> for SizeLimit {
    /// The parsed byte count of a human-readable size string; a string
    /// that does not parse yields a zero-byte limit.
    fn from(s: String) -> (r: Self) {
        match parse_human_size(s.as_str()) {
            Ok(n) => SizeLimit(n),
            Err(_) => SizeLimit(0),
        }
    }
}

impl vstd::std_specs::convert::FromSpecImpl<String> for SizeLimit {
    open spec fn obeys_from_spec() -> bool {
        true
    }

    open spec fn from_spec(v: String) -> SizeLimit {
        SizeLimit(
            match parse_size_spec(vstd::utf8::encode_utf8(v@)) {
                Ok(n) => n,
                Err(_) => 0,
            },
        )
    }
}

} // verus!
