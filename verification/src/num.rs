//! Numeric values and tolerant comparison.
//!
//! The harness compares numbers that arrive as decimal text in the oracle's
//! tabular output and in the subject's reports.  The library models such a
//! number exactly as a count of atto-units: a signed integer holding the
//! value scaled by 10^18.  Every comparison the harness makes is then an
//! exact integer comparison.
//!
//! Two distinct tolerances are deliberately kept apart and must not be
//! unified: the strict tolerance used when classifying an extracted result
//! against its expectation (the machine-epsilon equality class, 2^-52 of a
//! unit, which is 222.04... atto-units, so the widest integer bound is 222),
//! and the looser threshold of 10^-4 of a unit used only by the unlabeled
//! fallback scan when deciding whether a stray numeric cell is the result.

use vstd::prelude::*;

verus! {

/// Atto-units per unit: the fixed scaling factor of `Num`.
pub const ATTO_PER_UNIT: i128 = 1_000_000_000_000_000_000;

/// Strict tolerance, in atto-units: the widest integer number of atto-units
/// strictly below the machine-epsilon equality class of 2^-52 units.
pub const STRICT_TOL_ATTO: i128 = 222;

/// Loose threshold, in atto-units: 10^-4 of a unit, used only by the
/// unlabeled fallback scan.
pub const NEAR_TOL_ATTO: i128 = 100_000_000_000_000;

/// Largest magnitude, in atto-units, that the decimal parser accepts:
/// 10^18 units.
pub const PARSE_MAX_ATTO: i128 = 1_000_000_000_000_000_000_000_000_000_000_000_000;

/// A numeric value: `atto` atto-units, that is `atto / 10^18` units.
#[derive(Clone, Copy, Debug, PartialEq, Eq, Structural)]
pub struct Num {
    pub atto: i128,
}

impl Num {
    /// The value holding exactly `i` whole units.
    pub fn from_int(i: i64) -> (r: Num)
        ensures
            r.atto == i * ATTO_PER_UNIT,
    {
        Num { atto: (i as i128) * ATTO_PER_UNIT }
    }

    /// The value holding exactly `atto` atto-units.
    pub fn from_atto(atto: i128) -> (r: Num)
        ensures
            r.atto == atto,
    {
        Num { atto }
    }

    /// The count of atto-units.
    pub fn to_atto(&self) -> (r: i128)
        ensures
            r == self.atto,
    {
        self.atto
    }
}

/// The distance between two values, in atto-units.
pub open spec fn diff_atto(a: Num, b: Num) -> int {
    if a.atto >= b.atto {
        a.atto - b.atto
    } else {
        b.atto - a.atto
    }
}

/// The strict comparison: the two values lie within the machine-epsilon
/// equality class of each other.
pub open spec fn strict_matches(actual: Num, expected: Num) -> bool {
    diff_atto(actual, expected) <= STRICT_TOL_ATTO as int
}

/// The loose comparison of the unlabeled fallback scan: the two values lie
/// strictly within 10^-4 of a unit of each other.
pub open spec fn nearly_matches(actual: Num, expected: Num) -> bool {
    diff_atto(actual, expected) < NEAR_TOL_ATTO as int
}

/// Whether the distance between `a` and `b` is at most `tol` atto-units.
pub fn within_atto(a: Num, b: Num, tol: i128) -> (r: bool)
    requires
        0 <= tol,
    ensures
        r == (diff_atto(a, b) <= tol as int),
{
    match a.atto.checked_sub(b.atto) {
        Some(d) => -tol <= d && d <= tol,
        None => false,
    }
}

/// The strict comparison, executable.
pub fn strict_close(actual: Num, expected: Num) -> (r: bool)
    ensures
        r == strict_matches(actual, expected),
{
    within_atto(actual, expected, STRICT_TOL_ATTO)
}

/// The loose comparison of the fallback scan, executable.
pub fn nearly_close(actual: Num, expected: Num) -> (r: bool)
    ensures
        r == nearly_matches(actual, expected),
{
    within_atto(actual, expected, NEAR_TOL_ATTO - 1)
}

/// The two tolerances are distinct, and the strict class is contained in
/// the loose one: values within machine epsilon are also within 10^-4.
pub proof fn lemma_tolerances_distinct(a: Num, b: Num)
    ensures
        STRICT_TOL_ATTO < NEAR_TOL_ATTO,
        strict_matches(a, b) ==> nearly_matches(a, b),
{
}

/// Whether `c` is a decimal digit.
pub open spec fn is_digit(c: char) -> bool {
    '0' as u32 <= c as u32 && c as u32 <= '9' as u32
}

/// The value of the decimal digit `c`.
pub open spec fn digit_val(c: char) -> int {
    c as u32 - '0' as u32
}

/// Whether every character of `s` is a decimal digit.
pub open spec fn all_digits(s: Seq<char>) -> bool {
    forall|i: int| 0 <= i < s.len() ==> is_digit(s[i])
}

/// The value of the digit string `s`, read left to right.
pub open spec fn seq_digits_val(s: Seq<char>) -> int
    decreases s.len(),
{
    if s.len() == 0 {
        0
    } else {
        seq_digits_val(s.drop_last()) * 10 + digit_val(s.last())
    }
}

/// Ten to the `k`.
pub open spec fn pow10(k: nat) -> int
    decreases k,
{
    if k == 0 {
        1
    } else {
        10 * pow10((k - 1) as nat)
    }
}

/// The length of the longest digit prefix of `s`.
pub open spec fn digit_prefix_len(s: Seq<char>) -> int
    decreases s.len(),
{
    if s.len() > 0 && is_digit(s[0]) {
        1 + digit_prefix_len(s.skip(1))
    } else {
        0
    }
}

pub proof fn lemma_pow10_pos(k: nat)
    ensures
        pow10(k) >= 1,
    decreases k,
{
    if k > 0 {
        lemma_pow10_pos((k - 1) as nat);
    }
}

pub proof fn lemma_pow10_mono(a: nat, b: nat)
    requires
        a <= b,
    ensures
        pow10(a) <= pow10(b),
    decreases b,
{
    if a < b && b > 0 {
        lemma_pow10_mono(a, (b - 1) as nat);
        lemma_pow10_pos((b - 1) as nat);
    }
}

pub proof fn lemma_sdv_bound(s: Seq<char>)
    requires
        all_digits(s),
    ensures
        0 <= seq_digits_val(s) < pow10(s.len() as nat),
    decreases s.len(),
{
    if s.len() > 0 {
        assert(all_digits(s.drop_last())) by {
            assert(forall|i: int|
                0 <= i < s.drop_last().len() ==> s.drop_last()[i] == s[i] && is_digit(s[i]));
        }
        lemma_sdv_bound(s.drop_last());
        assert(is_digit(s.last()));
        assert(0 <= digit_val(s.last()) <= 9);
    }
}

/// Appending digit strings: the combined value scales the left part by
/// ten to the length of the right part.
pub proof fn lemma_sdv_append(a: Seq<char>, b: Seq<char>)
    ensures
        seq_digits_val(a + b) == seq_digits_val(a) * pow10(b.len() as nat) + seq_digits_val(b),
    decreases b.len(),
{
    if b.len() == 0 {
        assert(a + b =~= a);
    } else {
        assert((a + b).drop_last() =~= a + b.drop_last());
        assert((a + b).last() == b.last());
        lemma_sdv_append(a, b.drop_last());
        let va = seq_digits_val(a);
        let vb = seq_digits_val(b.drop_last());
        let p = pow10((b.len() - 1) as nat);
        assert((va * p + vb) * 10 + digit_val(b.last()) == va * (10 * p) + (vb * 10 + digit_val(
            b.last(),
        ))) by (nonlinear_arith);
    }
}

/// The digit prefix length is the unique cut point: everything before it is
/// a digit and it lies at the end or at a non-digit.
pub proof fn lemma_dpl_unique(s: Seq<char>, d: int)
    requires
        0 <= d <= s.len(),
        forall|j: int| 0 <= j < d ==> is_digit(s[j]),
        d < s.len() ==> !is_digit(s[d]),
    ensures
        digit_prefix_len(s) == d,
    decreases s.len(),
{
    if s.len() > 0 && is_digit(s[0]) {
        assert(d > 0);
        let t = s.skip(1);
        assert(forall|j: int| 0 <= j < d - 1 ==> t[j] == s[j + 1] && is_digit(s[j + 1]));
        assert(d - 1 < t.len() ==> t[d - 1] == s[d]);
        lemma_dpl_unique(t, d - 1);
    } else {
        assert(d == 0);
    }
}

/// Finds the end of the digit run of `cs` that starts at `from`.
fn digit_run_len(cs: &Vec<char>, from: usize) -> (r: usize)
    requires
        from <= cs@.len(),
    ensures
        r == digit_prefix_len(cs@.skip(from as int)),
        from + r <= cs@.len(),
        forall|j: int| from <= j < from + r ==> is_digit(cs@[j]),
        from + r < cs@.len() ==> !is_digit(cs@[from + r]),
{
    let n = cs.len();
    let mut i: usize = from;
    while i < n && is_digit_char(cs[i])
        invariant
            from <= i <= n,
            n == cs@.len(),
            forall|j: int| from <= j < i ==> is_digit(cs@[j]),
        decreases n - i,
    {
        i = i + 1;
    }
    proof {
        let s = cs@.skip(from as int);
        assert(forall|j: int|
            0 <= j < i - from ==> s[j] == cs@[j + from] && is_digit(cs@[j + from]));
        assert(i - from < s.len() ==> s[i - from] == cs@[i as int]);
        lemma_dpl_unique(s, i - from);
    }
    i - from
}

/// Whether `c` is a decimal digit, executable.
pub fn is_digit_char(c: char) -> (r: bool)
    ensures
        r == is_digit(c),
{
    let u = c as u32;
    '0' as u32 <= u && u <= '9' as u32
}

/// Reads the digit run `cs[from..from + count]` as a value, refusing one
/// above `limit`.
fn digits_value_limited(cs: &Vec<char>, from: usize, count: usize, limit: u128) -> (r: Option<
    u128,
>)
    requires
        from + count <= cs@.len(),
        forall|j: int| from <= j < from + count ==> is_digit(cs@[j]),
        limit <= 0xffff_ffff_ffff_ffff_ffff_ffff,
    ensures
        ({
            let v = seq_digits_val(cs@.subrange(from as int, from + count));
            match r {
                Some(x) => x == v && v <= limit,
                None => v > limit,
            }
        }),
{
    let ghost whole = cs@.subrange(from as int, from + count);
    let n = cs.len();
    let mut acc: u128 = 0;
    let mut i: usize = 0;
    proof {
        assert(whole.subrange(0, 0) =~= Seq::<char>::empty());
    }
    while i < count
        invariant
            0 <= i <= count,
            n == cs@.len(),
            from + count <= cs@.len(),
            forall|j: int| from <= j < from + count ==> is_digit(cs@[j]),
            limit <= 0xffff_ffff_ffff_ffff_ffff_ffff,
            whole == cs@.subrange(from as int, from + count),
            acc == seq_digits_val(whole.subrange(0, i as int)),
            acc <= limit,
        decreases count - i,
    {
        let c = cs[from + i];
        proof {
            assert(whole[i as int] == cs@[from + i]);
            assert(is_digit(whole[i as int]));
            assert(whole.subrange(0, i + 1).drop_last() =~= whole.subrange(0, i as int));
            assert(whole.subrange(0, i + 1).last() == whole[i as int]);
        }
        let d = (c as u32 - '0' as u32) as u128;
        let next = acc * 10 + d;
        let ghost pref = whole.subrange(0, i + 1);
        assert(next == seq_digits_val(pref));
        if next > limit {
            proof {
                let rest = whole.subrange(i + 1, count as int);
                assert(pref + rest =~= whole);
                lemma_sdv_append(pref, rest);
                assert(forall|j: int|
                    0 <= j < rest.len() ==> rest[j] == cs@[from + i + 1 + j] && is_digit(
                        cs@[from + i + 1 + j],
                    ));
                lemma_sdv_bound(rest);
                lemma_pow10_pos(rest.len() as nat);
                let v = seq_digits_val(pref);
                let p = pow10(rest.len() as nat);
                assert(v * p >= v * 1 == v) by (nonlinear_arith)
                    requires
                        v >= 0,
                        p >= 1,
                ;
            }
            return None;
        }
        acc = next;
        i = i + 1;
    }
    proof {
        assert(whole.subrange(0, count as int) =~= whole);
    }
    Some(acc)
}

pub proof fn lemma_pow10_36()
    ensures
        pow10(36) == 1_000_000_000_000_000_000_000_000_000_000_000_000,
{
    reveal_with_fuel(pow10, 37);
}

/// Ten to the `k`, executable for `k` up to 36.
fn pow10_u128(k: usize) -> (r: u128)
    requires
        k <= 36,
    ensures
        r == pow10(k as nat),
        r >= 1,
    decreases k,
{
    let mut r: u128 = 1;
    let mut i: usize = 0;
    while i < k
        invariant
            0 <= i <= k <= 36,
            r == pow10(i as nat),
            1 <= r,
            r <= 0x10_0000_0000_0000_0000_0000_0000_0000_0000,
        decreases k - i,
    {
        proof {
            lemma_pow10_mono((i + 1) as nat, 36);
            lemma_pow10_36();
        }
        r = r * 10;
        i = i + 1;
    }
    r
}

pub proof fn lemma_pow10_18()
    ensures
        pow10(18) == 1_000_000_000_000_000_000,
{
    reveal_with_fuel(pow10, 19);
}

/// The value of sign, integer digits, fraction digits and decimal exponent,
/// in atto-units: the fraction is read to atto resolution (its first 18
/// digits), the magnitude is truncated toward zero, and a magnitude above
/// 10^18 units is refused.
pub open spec fn num_from_parts(neg: bool, ipart: Seq<char>, fpart: Seq<char>, exp: int) -> Option<
    Num,
> {
    let ival = seq_digits_val(ipart);
    if ival > ATTO_PER_UNIT as int {
        None
    } else {
        let f18 = if fpart.len() <= 18 {
            fpart
        } else {
            fpart.take(18)
        };
        let mant = ival * pow10(f18.len() as nat) + seq_digits_val(f18);
        let k = 18 + exp - f18.len();
        let mag = if k >= 0 {
            mant * pow10(k as nat)
        } else {
            mant / pow10((-k) as nat)
        };
        if mag > PARSE_MAX_ATTO as int {
            None
        } else {
            Some(Num { atto: (if neg { -mag } else { mag }) as i128 })
        }
    }
}

/// Whether `s` opens with a sign character.
#[verifier::opaque]
pub open spec fn p_signed(s: Seq<char>) -> bool {
    s.len() > 0 && (s[0] == '-' || s[0] == '+')
}

/// Whether the number written in `s` is negative.
#[verifier::opaque]
pub open spec fn p_neg(s: Seq<char>) -> bool {
    s.len() > 0 && s[0] == '-'
}

/// Where the integer digits of `s` start.
#[verifier::opaque]
pub open spec fn p_int_from(s: Seq<char>) -> int {
    if p_signed(s) {
        1
    } else {
        0
    }
}

/// How many integer digits `s` has.
#[verifier::opaque]
pub open spec fn p_ni(s: Seq<char>) -> int {
    digit_prefix_len(s.skip(p_int_from(s)))
}

/// Where the integer digits of `s` end.
#[verifier::opaque]
pub open spec fn p_after_int(s: Seq<char>) -> int {
    p_int_from(s) + p_ni(s)
}

/// Whether a decimal point follows the integer digits.
#[verifier::opaque]
pub open spec fn p_has_dot(s: Seq<char>) -> bool {
    p_after_int(s) < s.len() && s[p_after_int(s)] == '.'
}

/// Where the fraction digits of `s` start.
#[verifier::opaque]
pub open spec fn p_f_from(s: Seq<char>) -> int {
    if p_has_dot(s) {
        p_after_int(s) + 1
    } else {
        p_after_int(s)
    }
}

/// How many fraction digits `s` has.
#[verifier::opaque]
pub open spec fn p_nf(s: Seq<char>) -> int {
    if p_has_dot(s) {
        digit_prefix_len(s.skip(p_f_from(s)))
    } else {
        0
    }
}

/// Where the mantissa of `s` ends.
#[verifier::opaque]
pub open spec fn p_after_frac(s: Seq<char>) -> int {
    p_f_from(s) + p_nf(s)
}

/// Whether an exponent marker follows the mantissa.
#[verifier::opaque]
pub open spec fn p_has_e(s: Seq<char>) -> bool {
    p_after_frac(s) < s.len() && (s[p_after_frac(s)] == 'e' || s[p_after_frac(s)] == 'E')
}

/// Whether the exponent is negative.
#[verifier::opaque]
pub open spec fn p_eneg(s: Seq<char>) -> bool {
    p_after_frac(s) + 1 < s.len() && s[p_after_frac(s) + 1] == '-'
}

/// Where the exponent digits of `s` start.
#[verifier::opaque]
pub open spec fn p_e_from(s: Seq<char>) -> int {
    if p_after_frac(s) + 1 < s.len() && (s[p_after_frac(s) + 1] == '-' || s[p_after_frac(s) + 1]
        == '+') {
        p_after_frac(s) + 2
    } else {
        p_after_frac(s) + 1
    }
}

/// How many exponent digits `s` has.
#[verifier::opaque]
pub open spec fn p_ne(s: Seq<char>) -> int {
    digit_prefix_len(s.skip(p_e_from(s)))
}

/// Whether the exponent part is well-formed: one to three digits reaching
/// the end of `s`.
#[verifier::opaque]
pub open spec fn p_e_valid(s: Seq<char>) -> bool {
    1 <= p_ne(s) <= 3 && p_e_from(s) + p_ne(s) == s.len()
}

/// The signed value of the exponent of `s`.
#[verifier::opaque]
pub open spec fn p_exp(s: Seq<char>) -> int {
    let v = seq_digits_val(s.subrange(p_e_from(s), p_e_from(s) + p_ne(s)));
    if p_eneg(s) {
        -v
    } else {
        v
    }
}

/// The integer digits of `s`.
#[verifier::opaque]
pub open spec fn p_ipart(s: Seq<char>) -> Seq<char> {
    s.subrange(p_int_from(s), p_after_int(s))
}

/// The fraction digits of `s`.
#[verifier::opaque]
pub open spec fn p_fpart(s: Seq<char>) -> Seq<char> {
    s.subrange(p_f_from(s), p_after_frac(s))
}

/// The decimal grammar the harness reads: an optional sign, digits with an
/// optional fraction (at least one digit in all), and an optional exponent
/// of at most three digits.  Anything else, and any value beyond 10^18
/// units, is refused.
#[verifier::opaque]
pub open spec fn spec_parse_num(s: Seq<char>) -> Option<Num> {
    if p_ni(s) + p_nf(s) == 0 {
        None
    } else if p_after_frac(s) == s.len() {
        num_from_parts(p_neg(s), p_ipart(s), p_fpart(s), 0)
    } else if p_has_e(s) && p_e_valid(s) {
        num_from_parts(p_neg(s), p_ipart(s), p_fpart(s), p_exp(s))
    } else {
        None
    }
}

/// Combines the scanned parts of a number, mirroring `num_from_parts`.
fn num_finish(cs: &Vec<char>, neg: bool, i_from: usize, ni: usize, f_from: usize, nf: usize, exp:
    i32) -> (r: Option<Num>)
    requires
        i_from + ni <= cs@.len(),
        f_from + nf <= cs@.len(),
        forall|j: int| i_from <= j < i_from + ni ==> is_digit(cs@[j]),
        forall|j: int| f_from <= j < f_from + nf ==> is_digit(cs@[j]),
        -999 <= exp <= 999,
    ensures
        r == num_from_parts(
            neg,
            cs@.subrange(i_from as int, i_from + ni),
            cs@.subrange(f_from as int, f_from + nf),
            exp as int,
        ),
{
    let ghost ipart = cs@.subrange(i_from as int, i_from + ni);
    let ghost fpart = cs@.subrange(f_from as int, f_from + nf);
    let ival = match digits_value_limited(cs, i_from, ni, 1_000_000_000_000_000_000u128) {
        Some(v) => v,
        None => {
            return None;
        },
    };
    let fl = if nf <= 18 {
        nf
    } else {
        18
    };
    let ghost f18 = if fpart.len() <= 18 {
        fpart
    } else {
        fpart.take(18)
    };
    proof {
        assert(f18 =~= cs@.subrange(f_from as int, f_from + fl));
        lemma_sdv_bound(f18);
        lemma_pow10_mono(f18.len() as nat, 18);
        lemma_pow10_18();
    }
    let fval = match digits_value_limited(cs, f_from, fl, 999_999_999_999_999_999u128) {
        Some(v) => v,
        None => {
            proof {
                assert(false);
            }
            0
        },
    };
    let pfl = pow10_u128(fl);
    proof {
        lemma_pow10_mono(fl as nat, 18);
        assert(ival * pfl <= 1_000_000_000_000_000_000 * 1_000_000_000_000_000_000)
            by (nonlinear_arith)
            requires
                0 <= ival <= 1_000_000_000_000_000_000,
                0 <= pfl <= 1_000_000_000_000_000_000,
        ;
    }
    let mant: u128 = ival * pfl + fval;
    let ghost spec_mant = seq_digits_val(ipart) * pow10(f18.len() as nat) + seq_digits_val(f18);
    proof {
        assert(mant == spec_mant);
    }
    let k: i32 = 18 + exp - (fl as i32);
    let mag: u128 = if k >= 0 {
        if k >= 37 {
            if mant == 0 {
                proof {
                    assert(spec_mant * pow10((k as int) as nat) == 0) by (nonlinear_arith)
                        requires
                            spec_mant == 0,
                    ;
                }
                0
            } else {
                proof {
                    lemma_pow10_36();
                    lemma_pow10_mono(37, (k as int) as nat);
                    assert(pow10(37) == 10 * pow10(36));
                    let p = pow10((k as int) as nat);
                    assert(spec_mant * p >= 1 * p) by (nonlinear_arith)
                        requires
                            spec_mant >= 1,
                            p >= 0,
                    ;
                }
                return None;
            }
        } else {
            let p = pow10_u128(k as usize);
            match mant.checked_mul(p) {
                Some(prod) => prod,
                None => {
                    proof {
                        lemma_pow10_36();
                    }
                    return None;
                },
            }
        }
    } else {
        let mk = (-k) as usize;
        if mk >= 37 {
            proof {
                lemma_pow10_36();
                lemma_pow10_mono(37, mk as nat);
                assert(pow10(37) == 10 * pow10(36));
                let p = pow10(mk as nat);
                assert(spec_mant / p == 0) by (nonlinear_arith)
                    requires
                        0 <= spec_mant < p,
                ;
            }
            0
        } else {
            let p = pow10_u128(mk);
            mant / p
        }
    };
    if mag > 1_000_000_000_000_000_000_000_000_000_000_000_000u128 {
        None
    } else {
        let atto128: i128 = mag as i128;
        Some(Num { atto: if neg { -atto128 } else { atto128 } })
    }
}

/// The scanned mantissa of a number text: sign and digit positions.
struct MantissaScan {
    neg: bool,
    int_from: usize,
    ni: usize,
    f_from: usize,
    nf: usize,
}

/// Scans sign, integer digits and fraction digits of `cs`.
fn scan_mantissa(cs: &Vec<char>) -> (m: MantissaScan)
    ensures
        m.neg == p_neg(cs@),
        m.int_from as int == p_int_from(cs@),
        m.ni as int == p_ni(cs@),
        m.f_from as int == p_f_from(cs@),
        m.nf as int == p_nf(cs@),
        m.int_from + m.ni <= cs@.len(),
        m.f_from + m.nf <= cs@.len(),
        m.int_from <= m.f_from,
        p_after_int(cs@) == m.int_from + m.ni,
        p_after_frac(cs@) == m.f_from + m.nf,
        forall|j: int| m.int_from <= j < m.int_from + m.ni ==> is_digit(cs@[j]),
        forall|j: int| m.f_from <= j < m.f_from + m.nf ==> is_digit(cs@[j]),
{
    let n = cs.len();
    let mut pos: usize = 0;
    let mut neg = false;
    if n > 0 && (cs[0] == '-' || cs[0] == '+') {
        neg = cs[0] == '-';
        pos = 1;
    }
    proof {
        assert(pos as int == p_int_from(cs@)) by {
            reveal(p_int_from);
            reveal(p_signed);
        }
        assert(neg == p_neg(cs@)) by {
            reveal(p_neg);
        }
    }
    let ni = digit_run_len(cs, pos);
    let after_int = pos + ni;
    proof {
        assert(ni as int == p_ni(cs@)) by {
            reveal(p_ni);
        }
        assert(after_int as int == p_after_int(cs@)) by {
            reveal(p_after_int);
        }
    }
    let has_dot = after_int < n && cs[after_int] == '.';
    let f_from = if has_dot {
        after_int + 1
    } else {
        after_int
    };
    let nf = if has_dot {
        digit_run_len(cs, after_int + 1)
    } else {
        0
    };
    proof {
        assert(has_dot == p_has_dot(cs@)) by {
            reveal(p_has_dot);
        }
        assert(f_from as int == p_f_from(cs@)) by {
            reveal(p_f_from);
        }
        assert(nf as int == p_nf(cs@)) by {
            reveal(p_nf);
        }
        assert(p_after_frac(cs@) == f_from + nf) by {
            reveal(p_after_frac);
        }
    }
    MantissaScan { neg, int_from: pos, ni, f_from, nf }
}

/// Reads `cs` as a decimal number, exactly per `spec_parse_num`.
pub fn parse_num(cs: &Vec<char>) -> (r: Option<Num>)
    ensures
        r == spec_parse_num(cs@),
{
    let n = cs.len();
    let m = scan_mantissa(cs);
    let after_int = m.int_from + m.ni;
    let after_frac = m.f_from + m.nf;
    if m.ni == 0 && m.nf == 0 {
        proof {
            reveal(spec_parse_num);
        }
        return None;
    }
    if after_frac == n {
        let r2 = num_finish(cs, m.neg, m.int_from, m.ni, m.f_from, m.nf, 0);
        proof {
            assert(p_ipart(cs@) == cs@.subrange(m.int_from as int, after_int as int)) by {
                reveal(p_ipart);
            }
            assert(p_fpart(cs@) == cs@.subrange(m.f_from as int, after_frac as int)) by {
                reveal(p_fpart);
            }
            reveal(spec_parse_num);
        }
        return r2;
    }
    let c = cs[after_frac];
    if c != 'e' && c != 'E' {
        proof {
            assert(!p_has_e(cs@)) by {
                reveal(p_has_e);
            }
            reveal(spec_parse_num);
        }
        return None;
    }
    proof {
        assert(p_has_e(cs@)) by {
            reveal(p_has_e);
        }
    }
    let mut epos = after_frac + 1;
    let mut eneg = false;
    if epos < n && (cs[epos] == '-' || cs[epos] == '+') {
        eneg = cs[epos] == '-';
        epos = epos + 1;
    }
    proof {
        assert(epos as int == p_e_from(cs@)) by {
            reveal(p_e_from);
        }
        assert(eneg == p_eneg(cs@)) by {
            reveal(p_eneg);
        }
    }
    let ne = digit_run_len(cs, epos);
    proof {
        assert(ne as int == p_ne(cs@)) by {
            reveal(p_ne);
        }
    }
    if ne == 0 || ne > 3 || epos + ne != n {
        proof {
            assert(!p_e_valid(cs@)) by {
                reveal(p_e_valid);
            }
            reveal(spec_parse_num);
        }
        return None;
    }
    proof {
        lemma_sdv_bound(cs@.subrange(epos as int, epos + ne));
        lemma_pow10_mono(ne as nat, 3);
        reveal_with_fuel(pow10, 4);
    }
    let ev = match digits_value_limited(cs, epos, ne, 999u128) {
        Some(v) => v,
        None => {
            proof {
                assert(false);
            }
            0
        },
    };
    let exp: i32 = if eneg {
        -(ev as i32)
    } else {
        ev as i32
    };
    proof {
        assert(p_e_valid(cs@)) by {
            reveal(p_e_valid);
        }
        assert(exp as int == p_exp(cs@)) by {
            reveal(p_exp);
        }
    }
    let r2 = num_finish(cs, m.neg, m.int_from, m.ni, m.f_from, m.nf, exp);
    proof {
        assert(p_ipart(cs@) == cs@.subrange(m.int_from as int, after_int as int)) by {
            reveal(p_ipart);
        }
        assert(p_fpart(cs@) == cs@.subrange(m.f_from as int, after_frac as int)) by {
            reveal(p_fpart);
        }
        reveal(spec_parse_num);
    }
    r2
}

/// The decimal digit string of `n`, most significant first.
pub open spec fn spec_digits_of(n: int) -> Seq<char>
    decreases n,
{
    if n < 0 {
        Seq::<char>::empty()
    } else if n < 10 {
        seq![digit_char(n)]
    } else {
        spec_digits_of(n / 10).push(digit_char(n % 10))
    }
}

/// The character of the decimal digit `d`.
pub open spec fn digit_char(d: int) -> char {
    if d == 0 {
        '0'
    } else if d == 1 {
        '1'
    } else if d == 2 {
        '2'
    } else if d == 3 {
        '3'
    } else if d == 4 {
        '4'
    } else if d == 5 {
        '5'
    } else if d == 6 {
        '6'
    } else if d == 7 {
        '7'
    } else if d == 8 {
        '8'
    } else {
        '9'
    }
}

/// Executable form of `digit_char`.
fn digit_char_of(d: u128) -> (c: char)
    requires
        d <= 9,
    ensures
        c == digit_char(d as int),
{
    if d == 0 {
        '0'
    } else if d == 1 {
        '1'
    } else if d == 2 {
        '2'
    } else if d == 3 {
        '3'
    } else if d == 4 {
        '4'
    } else if d == 5 {
        '5'
    } else if d == 6 {
        '6'
    } else if d == 7 {
        '7'
    } else if d == 8 {
        '8'
    } else {
        '9'
    }
}

/// Writes `n` in decimal, exactly per `spec_digits_of`.
pub fn format_usize(n: usize) -> (r: Vec<char>)
    ensures
        r@ == spec_digits_of(n as int),
{
    let mut out: Vec<char> = Vec::new();
    let mut cur: u128 = n as u128;
    while cur >= 10
        invariant
            spec_digits_of(n as int) == spec_digits_of(cur as int) + out@,
        decreases cur,
    {
        let d = cur % 10;
        proof {
            assert(spec_digits_of(cur as int) == spec_digits_of(cur as int / 10).push(
                digit_char(cur as int % 10),
            ));
            assert(spec_digits_of(cur as int / 10).push(digit_char(cur as int % 10))
                =~= spec_digits_of(cur as int / 10) + seq![digit_char(cur as int % 10)]);
        }
        out.insert(0, digit_char_of(d));
        cur = cur / 10;
    }
    proof {
        assert(spec_digits_of(cur as int) =~= seq![digit_char(cur as int)]);
    }
    let d = digit_char_of(cur);
    out.insert(0, d);
    out
}

pub proof fn lemma_digit_char_val(d: int)
    requires
        0 <= d <= 9,
    ensures
        is_digit(digit_char(d)),
        digit_val(digit_char(d)) == d,
{
    if d == 0 {
        assert('0' as u32 == 48 && digit_char(0) == '0');
    } else if d == 1 {
        assert('1' as u32 == 49);
    } else if d == 2 {
        assert('2' as u32 == 50);
    } else if d == 3 {
        assert('3' as u32 == 51);
    } else if d == 4 {
        assert('4' as u32 == 52);
    } else if d == 5 {
        assert('5' as u32 == 53);
    } else if d == 6 {
        assert('6' as u32 == 54);
    } else if d == 7 {
        assert('7' as u32 == 55);
    } else if d == 8 {
        assert('8' as u32 == 56);
    } else {
        assert('9' as u32 == 57);
    }
}

/// Reading back the decimal form of `n` gives `n`: the digits are digits,
/// there is at least one, and their value is `n`.
pub proof fn lemma_digits_roundtrip(n: int)
    requires
        0 <= n,
    ensures
        all_digits(spec_digits_of(n)),
        spec_digits_of(n).len() >= 1,
        seq_digits_val(spec_digits_of(n)) == n,
    decreases n,
{
    if n < 10 {
        let s = spec_digits_of(n);
        assert(s == seq![digit_char(n)]);
        assert(s.len() == 1);
        assert(s.drop_last() =~= Seq::<char>::empty());
        assert(seq_digits_val(s.drop_last()) == 0);
        assert(s.last() == digit_char(n));
        lemma_digit_char_val(n);
        assert(seq_digits_val(s) == seq_digits_val(s.drop_last()) * 10 + digit_val(s.last()));
        assert(seq_digits_val(s) == n);
    } else {
        lemma_digits_roundtrip(n / 10);
        let s = spec_digits_of(n);
        let t = spec_digits_of(n / 10);
        assert(s == t.push(digit_char(n % 10)));
        assert(s.drop_last() =~= t);
        assert(s.last() == digit_char(n % 10));
        lemma_digit_char_val(n % 10);
        assert(seq_digits_val(s) == (n / 10) * 10 + n % 10);
        assert((n / 10) * 10 + n % 10 == n) by (nonlinear_arith)
            requires
                n >= 0,
        ;
        assert(forall|i: int| 0 <= i < s.len() ==> is_digit(s[i])) by {
            assert(forall|i: int| 0 <= i < t.len() ==> s[i] == t[i] && is_digit(t[i]));
            assert(s[s.len() - 1] == digit_char(n % 10));
        }
    }
}

/// Reads `cs` as an unsigned decimal index: digits only, within `usize`.
pub open spec fn spec_parse_usize(s: Seq<char>) -> Option<usize> {
    if s.len() == 0 || !all_digits(s) {
        None
    } else if seq_digits_val(s) > usize::MAX as int {
        None
    } else {
        Some(seq_digits_val(s) as usize)
    }
}

/// Executable form of `spec_parse_usize`.
pub fn parse_usize(cs: &Vec<char>) -> (r: Option<usize>)
    ensures
        r == spec_parse_usize(cs@),
{
    let n = cs.len();
    if n == 0 {
        return None;
    }
    let run = digit_run_len(cs, 0);
    if run != n {
        proof {
            assert(!is_digit(cs@[run as int]));
        }
        return None;
    }
    proof {
        assert(cs@.subrange(0, n as int) =~= cs@);
    }
    match digits_value_limited(cs, 0, n, usize::MAX as u128) {
        Some(v) => Some(v as usize),
        None => None,
    }
}

/// Writing an index in decimal and reading it back yields the index: the
/// positional labels the batch document synthesizes always scan back to
/// their own case.
pub proof fn lemma_label_index_round_trip(i: usize)
    ensures
        spec_parse_usize(spec_digits_of(i as int)) == Some(i),
{
    lemma_digits_roundtrip(i as int);
}

} // verus!
