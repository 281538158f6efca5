//! Coordinate scaling between the decimal strings of the network boundary
//! and the signed 16-bit tenths-of-a-degree pair stored on the ledger.
//!
//! `scale` rounds the value times ten to the nearest integer (halves away
//! from zero) and clamps it into the signed 16-bit range, which the valid
//! latitude/longitude domain never reaches; `unscale` renders the stored
//! tenths back as a numeral.  The round trip loses at most half a tenth of
//! a degree: see `lemma_scale_error` and `lemma_render_parse`.

use vstd::prelude::*;

use crate::decimal::all_digits;
use crate::decimal::decimal_parts;
use crate::decimal::digit_val;
use crate::decimal::digits_val;
use crate::decimal::first_frac;
use crate::decimal::parse_tenths_round;
use crate::decimal::render_tenths;
use crate::decimal::round_up_amount;
use crate::decimal::spec_render_tenths;
use crate::decimal::tenths_round;

verus! {

/// Clamp into the signed 16-bit range, as the stored form demands.
pub open spec fn clamp_i16(v: int) -> int {
    if v > 32767 {
        32767
    } else if v < -32768 {
        -32768
    } else {
        v
    }
}

/// The scaled form of a coordinate numeral: its value times ten, rounded,
/// clamped into 16 bits; `None` when the numeral does not parse.
pub open spec fn spec_scale(s: Seq<char>) -> Option<int> {
    match tenths_round(s) {
        Some(t) => Some(clamp_i16(t)),
        None => None,
    }
}

/// Scales a coordinate string to its on-ledger form.
pub fn scale(s: &str) -> (r: Option<i16>)
    ensures
        match r {
            Some(v) => spec_scale(s@) == Some(v as int),
            None => spec_scale(s@) is None,
        },
{
    match parse_tenths_round(s) {
        None => None,
        Some(v) => {
            let c: i64 = if v > 32767 {
                32767
            } else if v < -32768 {
                -32768
            } else {
                v
            };
            Some(c as i16)
        },
    }
}

/// Renders an on-ledger coordinate back as a numeral, `525` to `"52.5"`.
pub fn unscale(v: i16) -> (r: String)
    ensures
        r@ == spec_render_tenths(v as int),
{
    render_tenths(v as i64)
}

/// A stored coordinate survives the trip back to text exactly: the
/// numeral `unscale` renders for it scales to the very same value, so
/// nothing drifts however often an order is read, rendered and
/// resubmitted.
pub proof fn lemma_unscale_scale_exact(v: int)
    requires
        -32768 <= v <= 32767,
    ensures
        spec_scale(spec_render_tenths(v)) == Some(v),
{
    crate::decimal::lemma_render_parse(v);
}

/// Ten to the `k`.
pub open spec fn pow10(k: int) -> int
    decreases k,
{
    if k <= 0 {
        1
    } else {
        10 * pow10(k - 1)
    }
}

proof fn lemma_pow10_pos(k: int)
    ensures
        pow10(k) >= 1,
    decreases k,
{
    if k > 0 {
        lemma_pow10_pos(k - 1);
    }
}

proof fn lemma_digits_val_bound(s: Seq<char>)
    requires
        all_digits(s),
    ensures
        0 <= digits_val(s) < pow10(s.len() as int),
    decreases s.len(),
{
    if s.len() == 0 {
    } else {
        assert(all_digits(s.drop_last()));
        lemma_digits_val_bound(s.drop_last());
        assert(0 <= digit_val(s.last()) <= 9);
    }
}

proof fn lemma_digits_val_msd(s: Seq<char>)
    requires
        s.len() >= 1,
        all_digits(s),
    ensures
        digits_val(s) == digit_val(s[0]) * pow10(s.len() - 1) + digits_val(s.drop_first()),
    decreases s.len(),
{
    if s.len() == 1 {
        assert(s.drop_last() =~= Seq::<char>::empty());
        assert(s.drop_first() =~= Seq::<char>::empty());
        assert(digits_val(Seq::<char>::empty()) == 0);
        assert(digits_val(s) == digits_val(s.drop_last()) * 10 + digit_val(s.last()));
        assert(digits_val(s) == digit_val(s[0]));
    } else {
        let dl = s.drop_last();
        assert(all_digits(dl));
        lemma_digits_val_msd(dl);
        assert(dl.drop_first() =~= s.drop_first().drop_last());
        assert(s.drop_first().last() == s.last());
        assert(digits_val(s) == digits_val(dl) * 10 + digit_val(s.last()));
        assert(digits_val(s.drop_first()) == digits_val(s.drop_first().drop_last()) * 10
            + digit_val(s.last()));
        let a = digit_val(s[0]);
        let p = pow10(s.len() - 2);
        assert(digits_val(dl) == a * p + digits_val(dl.drop_first()));
        assert((a * p + digits_val(dl.drop_first())) * 10 == a * (10 * p) + digits_val(
            dl.drop_first(),
        ) * 10) by (nonlinear_arith);
        assert(pow10(s.len() - 1) == 10 * p);
    }
}

/// The error of scaling, exactly: for a numeral with integer digits `ip`
/// and fraction digits `fp`, the magnitude of its value is
/// `(digits_val(ip)*den + digits_val(fp)) / den` degrees with
/// `den = pow10(fp.len())`, and the rounded tenths `t` obey
/// `|t/10 - value| <= 0.05`, stated here multiplied out over integers.
pub proof fn lemma_scale_error(s: Seq<char>)
    requires
        decimal_parts(s) is Some,
    ensures
        ({
            let (neg, ip, fp) = decimal_parts(s)->Some_0;
            let t = tenths_round(s)->Some_0;
            let tm = if neg {
                -t
            } else {
                t
            };
            let den = pow10(fp.len() as int);
            let xd = digits_val(ip) * den + digits_val(fp);
            -den <= 2 * (tm * den - 10 * xd) && 2 * (tm * den - 10 * xd) <= den
        }),
{
    let (neg, ip, fp) = decimal_parts(s)->Some_0;
    let t = tenths_round(s)->Some_0;
    let tm = if neg {
        -t
    } else {
        t
    };
    let den = pow10(fp.len() as int);
    let xd = digits_val(ip) * den + digits_val(fp);
    let iv = digits_val(ip);
    let d1 = first_frac(fp);
    let ru = round_up_amount(fp);
    assert(tm == iv * 10 + d1 + ru);
    let f = fp.len() as int;
    if f == 0 {
        assert(den == 1 && digits_val(fp) == 0 && d1 == 0 && ru == 0);
        assert(2 * (tm * 1 - 10 * (iv * 1 + 0)) == 0);
    } else if f == 1 {
        assert(fp.drop_last() =~= Seq::<char>::empty());
        assert(digits_val(Seq::<char>::empty()) == 0);
        assert(digits_val(fp) == digits_val(fp.drop_last()) * 10 + digit_val(fp.last()));
        assert(digits_val(fp) == digit_val(fp[0]));
        assert(pow10(0) == 1);
        assert(pow10(1) == 10);
        assert(den == 10 && ru == 0 && d1 == digit_val(fp[0]));
        assert(tm * den - 10 * xd == (iv * 10 + d1) * 10 - 10 * (iv * 10 + d1))
            by (nonlinear_arith)
            requires
                tm == iv * 10 + d1,
                den == 10,
                xd == iv * 10 + d1,
        ;
    } else {
        assert(all_digits(fp));
        lemma_digits_val_msd(fp);
        let p = pow10(f - 1);
        let fr = digits_val(fp.drop_first());
        assert(digits_val(fp) == d1 * p + fr);
        assert(den == 10 * p);
        // split off the second fraction digit
        let q = pow10(f - 2);
        assert(fp.drop_first().len() >= 1 && all_digits(fp.drop_first()));
        lemma_digits_val_msd(fp.drop_first());
        let d2 = digit_val(fp.drop_first()[0]);
        assert(fp.drop_first()[0] == fp[1]);
        assert(d2 == digit_val(fp[1]));
        let r2 = digits_val(fp.drop_first().drop_first());
        assert(fr == d2 * q + r2);
        assert(all_digits(fp.drop_first().drop_first()));
        lemma_digits_val_bound(fp.drop_first().drop_first());
        assert(fp.drop_first().drop_first().len() == f - 2);
        assert(0 <= r2 < q);
        assert(p == 10 * q);
        lemma_pow10_pos(f - 2);
        // the whole error reduces to the fraction tail
        assert(2 * (tm * den - 10 * xd) == 20 * (ru * p - fr)) by (nonlinear_arith)
            requires
                tm == iv * 10 + d1 + ru,
                den == 10 * p,
                xd == iv * den + d1 * p + fr,
        ;
        if ru == 1 {
            assert(d2 >= 5);
            assert(fr >= 5 * q && fr < p) by (nonlinear_arith)
                requires
                    fr == d2 * q + r2,
                    5 <= d2 <= 9,
                    0 <= r2 < q,
                    q >= 1,
                    p == 10 * q,
            ;
            assert(0 <= 20 * (p - fr) <= 10 * p);
        } else {
            assert(d2 <= 4);
            assert(0 <= fr && 2 * fr < p) by (nonlinear_arith)
                requires
                    fr == d2 * q + r2,
                    0 <= d2 <= 4,
                    0 <= r2 < q,
                    q >= 1,
                    p == 10 * q,
            ;
            assert(-10 * p <= 20 * (0 - fr) <= 0);
        }
    }
}

} // verus!
