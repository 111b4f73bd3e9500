//! Conversion of a decimal amount literal in the chain's major unit into the
//! integer base-unit quantity used on the wire.
//!
//! The conversion truncates toward zero: fractional digits beyond the
//! base-unit scale are dropped, never rounded up.

use vstd::prelude::*;
use vstd::string::StringSliceAdditionalSpecFns;

use crate::errors::AmountError;

verus! {

/// Number of base units in one major unit of the chain's currency.
pub const BASE_UNIT_SCALE: u64 = 1_000_000_000;

/// Number of decimal digits spanned by the base-unit scale.
pub const SCALE_DIGITS: usize = 9;

pub open spec fn is_digit(b: u8) -> bool {
    48 <= b && b <= 57
}

pub open spec fn digit_val(b: u8) -> nat {
    (b - 48) as nat
}

pub open spec fn all_digits(s: Seq<u8>) -> bool {
    forall|i: int| 0 <= i < s.len() ==> is_digit(#[trigger] s[i])
}

/// The number denoted by a sequence of decimal digit bytes, most significant
/// first.  The empty sequence denotes zero.
pub open spec fn digits_val(s: Seq<u8>) -> nat
    decreases s.len(),
{
    if s.len() == 0 {
        0
    } else {
        digits_val(s.drop_last()) * 10 + digit_val(s.last())
    }
}

pub open spec fn pow10(n: nat) -> nat
    decreases n,
{
    if n == 0 {
        1
    } else {
        10 * pow10((n - 1) as nat)
    }
}

/// Index of the first decimal point, or the length when there is none.
pub open spec fn dot_index(s: Seq<u8>) -> int
    decreases s.len(),
{
    if s.len() == 0 {
        0
    } else if s[0] == 46 {
        0
    } else {
        1 + dot_index(s.drop_first())
    }
}

/// The digits before the decimal point.
pub open spec fn int_digits(s: Seq<u8>) -> Seq<u8> {
    s.take(dot_index(s))
}

/// The digits after the decimal point, empty when there is no point.
pub open spec fn frac_digits(s: Seq<u8>) -> Seq<u8> {
    if dot_index(s) == s.len() {
        Seq::empty()
    } else {
        s.skip(dot_index(s) + 1)
    }
}

/// A plain unsigned decimal literal: digits with at most one decimal point,
/// and at least one digit somewhere.
pub open spec fn valid_amount(s: Seq<u8>) -> bool {
    &&& s.len() > 0
    &&& int_digits(s).len() + frac_digits(s).len() > 0
    &&& all_digits(int_digits(s))
    &&& all_digits(frac_digits(s))
}

/// The fractional digits that survive truncation at the base-unit scale.
pub open spec fn kept_frac(s: Seq<u8>) -> Seq<u8> {
    if frac_digits(s).len() <= SCALE_DIGITS {
        frac_digits(s)
    } else {
        frac_digits(s).take(SCALE_DIGITS as int)
    }
}

/// An amount literal the pipeline accepts: a valid decimal whose
/// base-unit quantity fits the wire representation.
pub open spec fn amount_accepted(s: Seq<u8>) -> bool {
    valid_amount(s) && base_units(s) <= u64::MAX
}

/// The base-unit quantity denoted by a valid decimal literal, truncated
/// toward zero at the base-unit scale.
pub open spec fn base_units(s: Seq<u8>) -> nat {
    digits_val(int_digits(s)) * (BASE_UNIT_SCALE as nat) + digits_val(kept_frac(s)) * pow10(
        (SCALE_DIGITS - kept_frac(s).len()) as nat,
    )
}

proof fn lemma_pow10_9()
    ensures
        pow10(9) == 1_000_000_000,
{
    assert(pow10(0) == 1);
    assert(pow10(1) == 10);
    assert(pow10(2) == 100);
    assert(pow10(3) == 1000);
    assert(pow10(4) == 10000);
    assert(pow10(5) == 100000);
    assert(pow10(6) == 1000000);
    assert(pow10(7) == 10000000);
    assert(pow10(8) == 100000000);
    assert(pow10(9) == 1000000000);
}

proof fn lemma_pow10_monotone(m: nat, n: nat)
    requires
        m <= n,
    ensures
        pow10(m) <= pow10(n),
    decreases n,
{
    if m < n {
        lemma_pow10_monotone(m, (n - 1) as nat);
    }
}

proof fn lemma_pow10_adds(a: nat, b: nat)
    ensures
        pow10(a + b) == pow10(a) * pow10(b),
    decreases a,
{
    if a == 0 {
    } else {
        lemma_pow10_adds((a - 1) as nat, b);
        assert(pow10(a + b) == 10 * pow10((a + b - 1) as nat));
        assert(10 * (pow10((a - 1) as nat) * pow10(b)) == (10 * pow10((a - 1) as nat)) * pow10(b))
            by (nonlinear_arith);
    }
}

proof fn lemma_digits_val_bound(s: Seq<u8>)
    requires
        all_digits(s),
    ensures
        digits_val(s) < pow10(s.len() as nat),
    decreases s.len(),
{
    if s.len() > 0 {
        assert(all_digits(s.drop_last()));
        lemma_digits_val_bound(s.drop_last());
        assert(digit_val(s.last()) <= 9);
    }
}

proof fn lemma_dot_index_at(s: Seq<u8>, i: int)
    requires
        0 <= i <= s.len(),
        forall|j: int| 0 <= j < i ==> s[j] != 46,
        i == s.len() || s[i] == 46,
    ensures
        dot_index(s) == i,
    decreases s.len(),
{
    if s.len() > 0 && s[0] != 46 {
        lemma_dot_index_at(s.drop_first(), i - 1);
    }
}

/// Prepending a digit adds its value scaled by the length of the tail.
proof fn lemma_digits_val_cons(b: u8, s: Seq<u8>)
    ensures
        digits_val(s.insert(0, b)) == digit_val(b) * pow10(s.len() as nat) + digits_val(s),
    decreases s.len(),
{
    let t = s.insert(0, b);
    if s.len() == 0 {
        assert(t.len() == 1);
        assert(t.drop_last() =~= Seq::empty());
        assert(t.last() == b);
        assert(digits_val(Seq::<u8>::empty()) == 0);
        assert(digits_val(t) == digits_val(t.drop_last()) * 10 + digit_val(t.last()));
        assert(digits_val(t.drop_last()) == 0);
        assert(digits_val(t) == digit_val(b));
        assert(pow10(s.len() as nat) == 1);
        assert(digit_val(b) * 1 == digit_val(b)) by (nonlinear_arith);
    } else {
        assert(t.drop_last() =~= s.drop_last().insert(0, b));
        assert(t.last() == s.last());
        lemma_digits_val_cons(b, s.drop_last());
        let m = (s.len() - 1) as nat;
        assert(digits_val(t) == (digit_val(b) * pow10(m) + digits_val(s.drop_last())) * 10
            + digit_val(s.last()));
        assert(pow10(m + 1) == 10 * pow10(m));
        assert(digits_val(t) == digit_val(b) * pow10(m + 1) + digits_val(s)) by (nonlinear_arith)
            requires
                digits_val(t) == (digit_val(b) * pow10(m) + digits_val(s.drop_last())) * 10
                    + digit_val(s.last()),
                digits_val(s) == digits_val(s.drop_last()) * 10 + digit_val(s.last()),
                pow10(m + 1) == 10 * pow10(m),
        ;
        assert(s.len() as nat == m + 1);
        assert(pow10(s.len() as nat) == pow10(m + 1));
        assert(digits_val(t) == digit_val(b) * pow10(s.len() as nat) + digits_val(s));
    }
}

/// Value of a digit sequence, split at any point: the head digits weigh
/// one power of ten for each digit behind them.
proof fn lemma_digits_val_split(s: Seq<u8>, k: int)
    requires
        0 <= k <= s.len(),
    ensures
        digits_val(s) == digits_val(s.take(k)) * pow10((s.len() - k) as nat) + digits_val(
            s.skip(k),
        ),
    decreases s.len() - k,
{
    if k == s.len() {
        assert(s.take(k) =~= s);
        assert(s.skip(k) =~= Seq::empty());
        assert(digits_val(Seq::<u8>::empty()) == 0);
        assert(digits_val(s.skip(k)) == 0);
        assert(pow10((s.len() - k) as nat) == 1);
        assert(digits_val(s.take(k)) == digits_val(s));
        assert(digits_val(s.take(k)) * 1 == digits_val(s.take(k))) by (nonlinear_arith);
    } else {
        lemma_digits_val_split(s, k + 1);
        assert(s.take(k + 1) =~= s.take(k).push(s[k]));
        assert(s.take(k).push(s[k]).drop_last() =~= s.take(k));
        assert(digits_val(s.take(k + 1)) == digits_val(s.take(k)) * 10 + digit_val(s[k]));
        assert(s.skip(k) =~= s.skip(k + 1).insert(0, s[k]));
        lemma_digits_val_cons(s[k], s.skip(k + 1));
        let pr = pow10((s.len() - k - 1) as nat);
        assert(digits_val(s.skip(k)) == digit_val(s[k]) * pr + digits_val(s.skip(k + 1)));
        assert(digits_val(s) == (digits_val(s.take(k)) * 10 + digit_val(s[k])) * pr + digits_val(
            s.skip(k + 1),
        ));
        assert(pow10((s.len() - k) as nat) == 10 * pr);
        assert(digits_val(s) == digits_val(s.take(k)) * pow10((s.len() - k) as nat) + digits_val(
            s.skip(k),
        )) by (nonlinear_arith)
            requires
                digits_val(s) == (digits_val(s.take(k)) * 10 + digit_val(s[k])) * pr + digits_val(
                    s.skip(k + 1),
                ),
                digits_val(s.skip(k)) == digit_val(s[k]) * pr + digits_val(s.skip(k + 1)),
                pow10((s.len() - k) as nat) == 10 * pr,
        ;
    }
}

/// The denoted base-unit quantity is exactly the floor of the literal's
/// value scaled to base units.  Writing the literal as the fraction
/// `num / den` with `den = pow10(frac_digits(s).len())`, the computed
/// quantity `q = base_units(s)` satisfies `q * den <= num * scale` and
/// `num * scale < (q + 1) * den`: conversion truncates, never rounds up.
pub proof fn lemma_base_units_is_floor(s: Seq<u8>)
    requires
        valid_amount(s),
    ensures
        ({
            let num = digits_val(int_digits(s)) * pow10(frac_digits(s).len() as nat) + digits_val(
                frac_digits(s),
            );
            let den = pow10(frac_digits(s).len() as nat);
            &&& base_units(s) * den <= num * (BASE_UNIT_SCALE as nat)
            &&& num * (BASE_UNIT_SCALE as nat) < (base_units(s) + 1) * den
        }),
{
    let ip = int_digits(s);
    let fp = frac_digits(s);
    let f = fp.len() as nat;
    let iv = digits_val(ip);
    let fv = digits_val(fp);
    let scale = BASE_UNIT_SCALE as nat;
    let num = iv * pow10(f) + fv;
    let den = pow10(f);
    let q = base_units(s);
    lemma_pow10_9();
    assert(pow10(9) == scale);
    lemma_pow10_monotone(0, f);
    assert(den >= 1);
    if fp.len() <= SCALE_DIGITS {
        let p = pow10((9 - f) as nat);
        assert(kept_frac(s) == fp);
        assert(q == iv * scale + fv * p);
        lemma_pow10_adds((9 - f) as nat, f);
        assert(p * den == scale);
        assert(q * den == num * scale) by (nonlinear_arith)
            requires
                q == iv * scale + fv * p,
                num == iv * den + fv,
                p * den == scale,
        ;
        assert((q + 1) * den == q * den + den) by (nonlinear_arith);
    } else {
        let kf = kept_frac(s);
        assert(kf == fp.take(SCALE_DIGITS as int));
        assert(kf.len() == 9);
        let kv = digits_val(kf);
        assert(pow10((SCALE_DIGITS - kf.len()) as nat) == 1);
        assert(kv * 1 == kv) by (nonlinear_arith);
        assert(q == iv * scale + kv);
        lemma_digits_val_split(fp, 9);
        let rest = (f - 9) as nat;
        let pr = pow10(rest);
        let rv = digits_val(fp.skip(9));
        assert(fv == kv * pr + rv);
        assert(all_digits(fp.skip(9))) by {
            assert(forall|i: int|
                0 <= i < fp.skip(9).len() ==> #[trigger] fp.skip(9)[i] == fp[i + 9]);
        }
        lemma_digits_val_bound(fp.skip(9));
        assert(rv < pow10(fp.skip(9).len() as nat));
        assert(fp.skip(9).len() as nat == rest);
        assert(rv < pr);
        lemma_pow10_adds(rest, 9);
        assert(rest + 9 == f);
        assert(den == pr * scale);
        assert(q * den <= num * scale && num * scale < (q + 1) * den) by (nonlinear_arith)
            requires
                q == iv * scale + kv,
                num == iv * den + kv * pr + rv,
                den == pr * scale,
                rv < pr,
                scale >= 1,
        ;
    }
}

fn pow10_u64(n: usize) -> (r: u64)
    requires
        n <= SCALE_DIGITS,
    ensures
        r == pow10(n as nat),
{
    let mut r: u64 = 1;
    let mut i: usize = 0;
    while i < n
        invariant
            i <= n <= 9,
            r == pow10(i as nat),
        decreases n - i,
    {
        proof {
            lemma_pow10_9();
            lemma_pow10_monotone((i + 1) as nat, 9);
            assert(pow10((i + 1) as nat) == 10 * pow10(i as nat));
        }
        r = r * 10;
        i = i + 1;
    }
    r
}

/// The value of the digit run `bytes[lo..hi]`, or `None` when it exceeds
/// the wire representation.
fn digits_value_capped(bytes: &[u8], lo: usize, hi: usize) -> (r: Option<u64>)
    requires
        lo <= hi <= bytes@.len(),
        all_digits(bytes@.subrange(lo as int, hi as int)),
    ensures
        r is Some <==> digits_val(bytes@.subrange(lo as int, hi as int)) <= u64::MAX,
        r matches Some(v) ==> v == digits_val(bytes@.subrange(lo as int, hi as int)),
{
    let mut acc: u128 = 0;
    let mut big = false;
    let mut i = lo;
    assert(bytes@.subrange(lo as int, lo as int) =~= Seq::empty());
    while i < hi
        invariant
            lo <= i <= hi <= bytes@.len(),
            all_digits(bytes@.subrange(lo as int, hi as int)),
            !big ==> acc == digits_val(bytes@.subrange(lo as int, i as int)) && acc <= u64::MAX,
            big ==> digits_val(bytes@.subrange(lo as int, i as int)) > u64::MAX,
        decreases hi - i,
    {
        let ghost pre = bytes@.subrange(lo as int, i as int);
        let ghost post = bytes@.subrange(lo as int, (i + 1) as int);
        proof {
            assert(post.drop_last() =~= pre);
            assert(post.last() == bytes@[i as int]);
            assert(bytes@.subrange(lo as int, hi as int)[i - lo] == bytes@[i as int]);
            assert(is_digit(bytes@[i as int]));
            assert(digits_val(post) == digits_val(pre) * 10 + digit_val(bytes@[i as int]));
        }
        let d = bytes[i];
        if !big {
            acc = acc * 10 + ((d - 48) as u128);
            if acc > u64::MAX as u128 {
                big = true;
            }
        } else {
            proof {
                assert(digits_val(post) >= digits_val(pre)) by (nonlinear_arith)
                    requires
                        digits_val(post) == digits_val(pre) * 10 + digit_val(bytes@[i as int]),
                ;
            }
        }
        i = i + 1;
    }
    if big {
        None
    } else {
        Some(acc as u64)
    }
}

/// Parses a decimal amount literal in the chain's major unit and converts
/// it to base units, truncating fractional digits beyond the scale.
/// Succeeds exactly on valid literals whose base-unit quantity fits the
/// wire representation; says which of the two faults occurred otherwise.
pub fn parse_amount_base_units(s: &str) -> (r: Result<u64, AmountError>)
    ensures
        r is Ok <==> valid_amount(s.spec_bytes()) && base_units(s.spec_bytes()) <= u64::MAX,
        r matches Ok(v) ==> v == base_units(s.spec_bytes()),
        r matches Err(e) ==> (e == AmountError::Overflow <==> valid_amount(s.spec_bytes())),
        r matches Err(e) ==> (e == AmountError::Malformed <==> !valid_amount(s.spec_bytes())),
{
    let bytes: &[u8] = s.as_bytes();
    let ghost bs = s.spec_bytes();
    let n = bytes.len();
    if n == 0 {
        return Err(AmountError::Malformed);
    }
    // Locate the first decimal point, if any.
    let mut i: usize = 0;
    while i < n && bytes[i] != 46
        invariant
            i <= n == bs.len(),
            bytes@ == bs,
            forall|j: int| 0 <= j < i ==> bs[j] != 46,
        decreases n - i,
    {
        i = i + 1;
    }
    let dot: usize = i;
    proof {
        lemma_dot_index_at(bs, dot as int);
        assert(dot_index(bs) == dot as int);
    }
    let fp_lo: usize = if dot == n {
        n
    } else {
        dot + 1
    };
    proof {
        assert(int_digits(bs) =~= bs.subrange(0, dot as int));
        assert(frac_digits(bs) =~= bs.subrange(fp_lo as int, n as int));
    }
    if dot == 0 && fp_lo == n {
        // The literal is a lone decimal point.
        assert(int_digits(bs).len() + frac_digits(bs).len() == 0);
        return Err(AmountError::Malformed);
    }
    // Every remaining byte must be a digit.
    let mut k: usize = 0;
    while k < dot
        invariant
            k <= dot <= n == bs.len(),
            bytes@ == bs,
            bs == s.spec_bytes(),
            dot_index(bs) == dot as int,
            forall|j: int| 0 <= j < k ==> is_digit(#[trigger] bs[j]),
        decreases dot - k,
    {
        let b = bytes[k];
        if b < 48 || b > 57 {
            proof {
                assert(int_digits(bs) =~= bs.subrange(0, dot as int));
                assert(int_digits(bs)[k as int] == bs[k as int]);
                assert(!all_digits(int_digits(bs)));
            }
            return Err(AmountError::Malformed);
        }
        k = k + 1;
    }
    assert(all_digits(int_digits(bs))) by {
        assert(forall|j: int|
            0 <= j < int_digits(bs).len() ==> #[trigger] int_digits(bs)[j] == bs[j]);
    }
    let mut k2: usize = fp_lo;
    while k2 < n
        invariant
            fp_lo <= k2 <= n == bs.len(),
            bytes@ == bs,
            bs == s.spec_bytes(),
            dot_index(bs) == dot as int,
            fp_lo == if dot == n {
                n as int
            } else {
                dot + 1
            },
            forall|j: int| fp_lo <= j < k2 ==> is_digit(#[trigger] bs[j]),
        decreases n - k2,
    {
        let b = bytes[k2];
        if b < 48 || b > 57 {
            proof {
                assert(frac_digits(bs) =~= bs.subrange(fp_lo as int, n as int));
                assert(frac_digits(bs)[k2 - fp_lo] == bs[k2 as int]);
                assert(!all_digits(frac_digits(bs)));
            }
            return Err(AmountError::Malformed);
        }
        k2 = k2 + 1;
    }
    assert(all_digits(frac_digits(bs))) by {
        assert(forall|j: int|
            0 <= j < frac_digits(bs).len() ==> #[trigger] frac_digits(bs)[j] == bs[j + fp_lo]);
    }
    assert(valid_amount(bs));
    // Integer part.
    proof {
        assert(bytes@.subrange(0, dot as int) =~= int_digits(bs));
    }
    let int_val = match digits_value_capped(bytes, 0, dot) {
        Some(v) => v,
        None => {
            proof {
                let iv = digits_val(int_digits(bs));
                assert(iv * (BASE_UNIT_SCALE as nat) >= iv) by (nonlinear_arith)
                    requires
                        (BASE_UNIT_SCALE as nat) >= 1,
                ;
            }
            return Err(AmountError::Overflow);
        },
    };
    // Fractional part, truncated at the scale.
    let frac_len = n - fp_lo;
    let kept_len: usize = if frac_len > SCALE_DIGITS {
        SCALE_DIGITS
    } else {
        frac_len
    };
    proof {
        assert(kept_frac(bs) =~= bs.subrange(fp_lo as int, (fp_lo + kept_len) as int));
        assert(all_digits(kept_frac(bs))) by {
            assert(forall|j: int|
                0 <= j < kept_frac(bs).len() ==> #[trigger] kept_frac(bs)[j] == bs[j + fp_lo]);
        }
        lemma_digits_val_bound(kept_frac(bs));
        lemma_pow10_monotone(kept_len as nat, 9);
        lemma_pow10_9();
    }
    let frac_val = match digits_value_capped(bytes, fp_lo, fp_lo + kept_len) {
        Some(v) => v,
        None => {
            proof {
                assert(false);
            }
            return Err(AmountError::Overflow);
        },
    };
    let mult = pow10_u64(SCALE_DIGITS - kept_len);
    proof {
        let kv = digits_val(kept_frac(bs));
        lemma_pow10_adds(kept_len as nat, (9 - kept_len) as nat);
        lemma_pow10_monotone(0, (9 - kept_len) as nat);
        assert(pow10((9 - kept_len) as nat) >= 1);
        assert(kv * pow10((9 - kept_len) as nat) < pow10(kept_len as nat) * pow10(
            (9 - kept_len) as nat,
        )) by (nonlinear_arith)
            requires
                kv < pow10(kept_len as nat),
                pow10((9 - kept_len) as nat) >= 1,
        ;
        assert(pow10(kept_len as nat) * pow10((9 - kept_len) as nat) == pow10(9));
    }
    let frac_units = frac_val * mult;
    match int_val.checked_mul(BASE_UNIT_SCALE) {
        Some(scaled) => match scaled.checked_add(frac_units) {
            Some(total) => Ok(total),
            None => Err(AmountError::Overflow),
        },
        None => {
            proof {
                let iv = digits_val(int_digits(bs));
                assert(iv * (BASE_UNIT_SCALE as nat) > u64::MAX);
            }
            Err(AmountError::Overflow)
        },
    }
}

} // verus!
