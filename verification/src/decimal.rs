//! Plain decimal numerals: the shared ground for coordinate scaling and
//! temperature quantization.
//!
//! A numeral is an optional sign, one or more digits, and optionally a dot
//! followed by one or more digits.  Its value times ten ("tenths") is what
//! the rest of the library works with: coordinates are stored as rounded
//! tenths of a degree, temperatures are quantized from truncated tenths of
//! a degree Celsius.

use vstd::prelude::*;

verus! {

/// `c` is an ASCII decimal digit.
pub open spec fn is_digit(c: char) -> bool {
    48 <= c as u32 && c as u32 <= 57
}

/// Numeric value of a digit character.
pub open spec fn digit_val(c: char) -> int {
    c as u32 - 48
}

/// Every character of `s` is a digit.
pub open spec fn all_digits(s: Seq<char>) -> bool {
    forall|i: int| 0 <= i < s.len() ==> is_digit(#[trigger] s[i])
}

/// Value of a digit string, most significant digit first.
pub open spec fn digits_val(s: Seq<char>) -> int
    decreases s.len(),
{
    if s.len() == 0 {
        0
    } else {
        digits_val(s.drop_last()) * 10 + digit_val(s.last())
    }
}

/// Index of the first `'.'` in `s`, or `s.len()` if there is none.
pub open spec fn find_dot(s: Seq<char>) -> int
    decreases s.len(),
{
    if s.len() == 0 {
        0
    } else if s[0] == '.' {
        0
    } else {
        1 + find_dot(s.drop_first())
    }
}

/// Splits a numeral into its sign, integer digits and fraction digits.
/// `None` if `s` is not a numeral of the form `sign? digit+ ('.' digit+)?`.
pub open spec fn decimal_parts(s: Seq<char>) -> Option<(bool, Seq<char>, Seq<char>)> {
    let neg = s.len() > 0 && s[0] == '-';
    let t = if s.len() > 0 && (s[0] == '-' || s[0] == '+') {
        s.drop_first()
    } else {
        s
    };
    let d = find_dot(t);
    let ip = t.take(d);
    let fp = if d < t.len() {
        t.skip(d + 1)
    } else {
        Seq::<char>::empty()
    };
    if ip.len() > 0 && all_digits(ip) && (d == t.len() || (fp.len() > 0 && all_digits(fp))) {
        Some((neg, ip, fp))
    } else {
        None
    }
}

/// Value of the first fraction digit, or 0 if there is none.
pub open spec fn first_frac(fp: Seq<char>) -> int {
    if fp.len() > 0 {
        digit_val(fp[0])
    } else {
        0
    }
}

/// 1 when the digits after the first fraction digit say "round the tenths
/// up": the tail is at least one half of a tenth exactly when the second
/// fraction digit is 5 or more.
pub open spec fn round_up_amount(fp: Seq<char>) -> int {
    if fp.len() > 1 && digit_val(fp[1]) >= 5 {
        1
    } else {
        0
    }
}

/// The numeral's value times ten, truncated toward zero.
pub open spec fn tenths_trunc(s: Seq<char>) -> Option<int> {
    match decimal_parts(s) {
        Some((neg, ip, fp)) => {
            let mag = digits_val(ip) * 10 + first_frac(fp);
            Some(if neg { -mag } else { mag })
        },
        None => None,
    }
}

/// The numeral's value times ten, rounded to the nearest integer with
/// halves away from zero.
pub open spec fn tenths_round(s: Seq<char>) -> Option<int> {
    match decimal_parts(s) {
        Some((neg, ip, fp)) => {
            let mag = digits_val(ip) * 10 + first_frac(fp) + round_up_amount(fp);
            Some(if neg { -mag } else { mag })
        },
        None => None,
    }
}

/// Cap used while accumulating integer digits.
spec fn cap_acc(m: int) -> int {
    if m > 200_000 {
        200_000
    } else {
        m
    }
}

/// Saturation of a nonnegative magnitude of tenths.
spec fn sat_mag(m: int) -> int {
    if m > 1_000_000 {
        1_000_000
    } else {
        m
    }
}

proof fn lemma_digits_val_nonneg(s: Seq<char>)
    requires
        all_digits(s),
    ensures
        digits_val(s) >= 0,
    decreases s.len(),
{
    if s.len() > 0 {
        assert(all_digits(s.drop_last()));
        lemma_digits_val_nonneg(s.drop_last());
    }
}

proof fn lemma_digits_val_step(t: Seq<char>, j: int)
    requires
        0 <= j < t.len(),
    ensures
        digits_val(t.take(j + 1)) == digits_val(t.take(j)) * 10 + digit_val(t[j]),
{
    assert(t.take(j + 1).drop_last() =~= t.take(j));
    assert(t.take(j + 1).last() == t[j]);
}

/// `find_dot` stays within the sequence.
proof fn lemma_find_dot_bounds(s: Seq<char>)
    ensures
        0 <= find_dot(s) <= s.len(),
    decreases s.len(),
{
    if s.len() > 0 && s[0] != '.' {
        lemma_find_dot_bounds(s.drop_first());
    }
}

/// If the first `k` characters are not dots, the first dot is at `k` or
/// later; if the character at `k` is a dot, it is exactly at `k`.
proof fn lemma_find_dot_from_prefix(t: Seq<char>, k: int)
    requires
        0 <= k <= t.len(),
        forall|j: int| 0 <= j < k ==> t[j] != '.',
    ensures
        find_dot(t) >= k,
        (k < t.len() && t[k] == '.') ==> find_dot(t) == k,
    decreases k,
{
    if k > 0 {
        assert(t[0] != '.');
        assert(forall|j: int| 0 <= j < k - 1 ==> t.drop_first()[j] != '.');
        lemma_find_dot_from_prefix(t.drop_first(), k - 1);
    } else {
        lemma_find_dot_bounds(t);
        if 0 < t.len() && t[0] == '.' {
        }
    }
}

/// Core of the parsers: sign, saturated magnitude of truncated tenths, and
/// the rounding carry read off the second fraction digit.
fn parse_core(s: &str) -> (r: Option<(bool, i64, i64)>)
    ensures
        ({
            let p = decimal_parts(s@);
            match r {
                None => p is None,
                Some((neg, mag, ru)) => p matches Some((n2, ip, fp)) && neg == n2 && mag
                    == sat_mag(digits_val(ip) * 10 + first_frac(fp)) && ru == round_up_amount(fp)
                    && 0 <= mag <= 1_000_000 && 0 <= ru <= 1,
            }
        }),
{
    let n: usize = s.unicode_len();
    let mut i: usize = 0;
    let mut neg: bool = false;
    if 0 < n {
        let c0 = s.get_char(0);
        if c0 == '-' {
            neg = true;
            i = 1;
        } else if c0 == '+' {
            i = 1;
        }
    }
    let start: usize = i;
    let ghost t = if s@.len() > 0 && (s@[0] == '-' || s@[0] == '+') {
        s@.drop_first()
    } else {
        s@
    };
    proof {
        assert(t =~= s@.skip(start as int));
    }
    let mut acc: i64 = 0;
    loop
        invariant
            n == s@.len(),
            start <= i <= n,
            t == s@.skip(start as int),
            t.len() == n - start,
            forall|j: int| 0 <= j < i - start ==> is_digit(#[trigger] t[j]),
            acc == cap_acc(digits_val(t.take(i - start))),
        ensures
            start <= i <= n,
            forall|j: int| 0 <= j < i - start ==> is_digit(#[trigger] t[j]),
            acc == cap_acc(digits_val(t.take(i - start))),
            i == n || !is_digit(t[i - start]),
        decreases n - i,
    {
        if i >= n {
            break ;
        }
        let c = s.get_char(i);
        proof {
            assert(t[i - start] == s@[i as int]);
        }
        let u: u32 = c as u32;
        if !(48 <= u && u <= 57) {
            break ;
        }
        let d: i64 = (u - 48) as i64;
        proof {
            assert(all_digits(t.take(i - start)));
            lemma_digits_val_nonneg(t.take(i - start));
            lemma_digits_val_step(t, i - start);
        }
        acc = acc * 10 + d;
        if acc > 200_000 {
            acc = 200_000;
        }
        i = i + 1;
    }
    proof {
        lemma_find_dot_bounds(t);
    }
    if i == start {
        // no integer digits: the numeral is malformed
        proof {
            let d = find_dot(t);
            if t.len() == 0 {
            } else if t[0] == '.' {
                lemma_find_dot_from_prefix(t, 0);
                assert(t.take(find_dot(t)).len() == 0);
            } else {
                assert(!is_digit(t[0]));
                lemma_find_dot_from_prefix(t, 1);
                assert(t.take(d)[0] == t[0]);
                assert(!all_digits(t.take(d)));
            }
        }
        return None;
    }
    let ghost k = i - start;
    proof {
        assert(forall|j: int| 0 <= j < k ==> is_digit(#[trigger] t[j]));
        assert(forall|j: int| 0 <= j < k ==> t[j] != '.') by {
            assert(forall|j: int| 0 <= j < k ==> is_digit(#[trigger] t[j]) && ('.' as u32) == 46);
        }
        lemma_find_dot_from_prefix(t, k);
    }
    let mut d1: i64 = 0;
    let mut ru: i64 = 0;
    if i < n {
        let c = s.get_char(i);
        proof {
            assert(t[i - start] == s@[i as int]);
        }
        if c != '.' {
            // neither a digit nor a dot ends the integer part: malformed
            proof {
                assert(forall|j: int| 0 <= j < k + 1 ==> t[j] != '.');
                lemma_find_dot_from_prefix(t, k + 1);
                let d = find_dot(t);
                assert(k < d <= t.len());
                assert(t.take(d)[k] == t[k]);
                assert(!all_digits(t.take(d)));
            }
            return None;
        }
        proof {
            assert(find_dot(t) == k);
        }
        i = i + 1;
        let fstart: usize = i;
        let ghost fp = t.skip(k + 1);
        proof {
            assert(fp.len() == n - fstart);
        }
        loop
            invariant
                n == s@.len(),
                start <= fstart <= i <= n,
                t == s@.skip(start as int),
                t.len() == n - start,
                fstart - start == k + 1,
                0 <= k < t.len(),
                find_dot(t) == k,
                t == (if s@.len() > 0 && (s@[0] == '-' || s@[0] == '+') {
                    s@.drop_first()
                } else {
                    s@
                }),
                fp == t.skip(k + 1),
                fp.len() == n - fstart,
                forall|j: int| 0 <= j < i - fstart ==> is_digit(#[trigger] fp[j]),
                i - fstart >= 1 ==> d1 == digit_val(fp[0]),
                i - fstart < 1 ==> d1 == 0,
                ru == if i - fstart >= 2 && digit_val(fp[1]) >= 5 {
                    1int
                } else {
                    0int
                },
            ensures
                i == n,
                fstart <= i,
                forall|j: int| 0 <= j < i - fstart ==> is_digit(#[trigger] fp[j]),
                i - fstart >= 1 ==> d1 == digit_val(fp[0]),
                i - fstart < 1 ==> d1 == 0,
                ru == if i - fstart >= 2 && digit_val(fp[1]) >= 5 {
                    1int
                } else {
                    0int
                },
            decreases n - i,
        {
            if i >= n {
                break ;
            }
            let c = s.get_char(i);
            proof {
                assert(fp[i - fstart] == t[i - start]);
                assert(t[i - start] == s@[i as int]);
            }
            let u: u32 = c as u32;
            if !(48 <= u && u <= 57) {
                // a non-digit inside the fraction: malformed
                proof {
                    assert(!is_digit(fp[i - fstart]));
                    assert(!all_digits(fp));
                    assert(fp == t.skip(find_dot(t) + 1));
                }
                return None;
            }
            let d: i64 = (u - 48) as i64;
            if i == fstart {
                d1 = d;
            }
            if i == fstart + 1 && d >= 5 {
                ru = 1;
            }
            i = i + 1;
        }
        if i == fstart {
            // a dot with nothing after it: malformed
            proof {
                assert(fp.len() == 0);
                assert(find_dot(t) < t.len());
            }
            return None;
        }
        proof {
            assert(forall|j: int| 0 <= j < t.take(k).len() ==> is_digit(#[trigger] t.take(k)[j]));
            assert(all_digits(t.take(k)));
            assert(i - fstart == fp.len());
            assert(all_digits(fp));
            assert(fp.len() > 0);
            lemma_digits_val_nonneg(t.take(k));
            assert(round_up_amount(fp) == ru);
            assert(first_frac(fp) == d1);
        }
    } else {
        proof {
            assert(find_dot(t) == t.len()) by {
                lemma_find_dot_from_prefix(t, t.len() as int);
            }
            assert(forall|j: int| 0 <= j < t.take(k).len() ==> is_digit(#[trigger] t.take(k)[j]));
            assert(all_digits(t.take(k)));
            lemma_digits_val_nonneg(t.take(k));
        }
    }
    let ghost ipv = digits_val(t.take(k));
    proof {
        assert(acc == cap_acc(ipv));
        assert(ipv >= 0);
    }
    let mut mag: i64 = acc * 10 + d1;
    if mag > 1_000_000 {
        mag = 1_000_000;
    }
    proof {
        assert(0 <= d1 < 10);
        if ipv > 200_000 {
            assert(acc == 200_000);
            assert(ipv * 10 + d1 > 1_000_000);
        } else {
            assert(acc == ipv);
        }
        assert(mag == sat_mag(ipv * 10 + d1));
    }
    Some((neg, mag, ru))
}

/// Parses a numeral and returns its value times ten, truncated toward
/// zero; magnitudes beyond `TENTHS_SATURATION` come back saturated.
pub fn parse_tenths_trunc(s: &str) -> (r: Option<i64>)
    ensures
        match r {
            None => tenths_trunc(s@) is None,
            Some(v) => tenths_trunc(s@) matches Some(w) && (w == v || (w > 1_000_000 && v
                == 1_000_000) || (w < -1_000_000 && v == -1_000_000)),
        },
{
    match parse_core(s) {
        None => None,
        Some((neg, mag, _ru)) => if neg {
            Some(-mag)
        } else {
            Some(mag)
        },
    }
}

/// Parses a numeral and returns its value times ten, rounded to the
/// nearest integer with halves away from zero; magnitudes beyond
/// `TENTHS_SATURATION` come back saturated.
pub fn parse_tenths_round(s: &str) -> (r: Option<i64>)
    ensures
        match r {
            None => tenths_round(s@) is None,
            Some(v) => tenths_round(s@) matches Some(w) && (w == v || (w > 1_000_000 && v
                >= 1_000_000 && v <= 1_000_001) || (w < -1_000_000 && v <= -1_000_000 && v
                >= -1_000_001)),
        },
{
    match parse_core(s) {
        None => None,
        Some((neg, mag, ru)) => {
            let m: i64 = mag + ru;
            if neg {
                Some(-m)
            } else {
                Some(m)
            }
        },
    }
}

/// The digit character for `d`.
pub open spec fn digit_char(d: int) -> char {
    if d == 0 {
        '0'
    } else if d == 1 {
        '1'
    } else if d == 2 {
        '2'
    } else if d == 3 {
        '3'
    } else if d == 4 {
        '4'
    } else if d == 5 {
        '5'
    } else if d == 6 {
        '6'
    } else if d == 7 {
        '7'
    } else if d == 8 {
        '8'
    } else {
        '9'
    }
}

/// Decimal digit string of a nonnegative integer, no leading zeros.
pub open spec fn spec_digits(n: int) -> Seq<char>
    decreases n,
{
    if n < 10 {
        seq![digit_char(n)]
    } else {
        spec_digits(n / 10).push(digit_char(n % 10))
    }
}

/// How a count of tenths reads as a decimal numeral: `525` reads as
/// `"52.5"`, `-30` as `"-3"`, `0` as `"0"` — a whole number of tenths
/// drops the dot.
pub open spec fn spec_render_tenths(v: int) -> Seq<char> {
    let a = if v < 0 {
        -v
    } else {
        v
    };
    let sign: Seq<char> = if v < 0 {
        seq!['-']
    } else {
        Seq::<char>::empty()
    };
    if a % 10 == 0 {
        sign + spec_digits(a / 10)
    } else {
        sign + spec_digits(a / 10) + seq!['.', digit_char(a % 10)]
    }
}

proof fn lemma_digit_char(d: int)
    requires
        0 <= d <= 9,
    ensures
        is_digit(digit_char(d)),
        digit_val(digit_char(d)) == d,
{
}

proof fn lemma_spec_digits_wf(n: int)
    requires
        n >= 0,
    ensures
        spec_digits(n).len() >= 1,
        all_digits(spec_digits(n)),
        digits_val(spec_digits(n)) == n,
    decreases n,
{
    if n < 10 {
        lemma_digit_char(n);
        assert(spec_digits(n) =~= seq![digit_char(n)]);
        let s1 = seq![digit_char(n)];
        assert(s1.len() == 1 && s1.last() == digit_char(n));
        assert(s1.drop_last() =~= Seq::<char>::empty());
        assert(digits_val(Seq::<char>::empty()) == 0);
        assert(digits_val(s1) == digits_val(s1.drop_last()) * 10 + digit_val(s1.last()));
        assert(digits_val(s1) == digit_val(digit_char(n)));
    } else {
        lemma_spec_digits_wf(n / 10);
        lemma_digit_char(n % 10);
        let s = spec_digits(n / 10);
        let s2 = s.push(digit_char(n % 10));
        assert(s2.drop_last() =~= s);
        assert(s2.last() == digit_char(n % 10));
        assert(digits_val(s2) == digits_val(s) * 10 + digit_val(digit_char(n % 10)));
        assert forall|j: int| 0 <= j < s2.len() implies is_digit(#[trigger] s2[j]) by {
            if j < s.len() {
                assert(s2[j] == s[j]);
            }
        };
    }
}

/// A digit character is neither a dot nor a sign.
proof fn lemma_digit_not_punct(c: char)
    requires
        is_digit(c),
    ensures
        c != '.',
        c != '-',
        c != '+',
{
    assert('.' as u32 == 46 && '-' as u32 == 45 && '+' as u32 == 43);
}

/// The single digit `d` as a string slice.
fn digit_str(d: u32) -> (r: &'static str)
    requires
        d < 10,
    ensures
        r@ =~= seq![digit_char(d as int)],
{
    proof {
        reveal_strlit("0");
        reveal_strlit("1");
        reveal_strlit("2");
        reveal_strlit("3");
        reveal_strlit("4");
        reveal_strlit("5");
        reveal_strlit("6");
        reveal_strlit("7");
        reveal_strlit("8");
        reveal_strlit("9");
    }
    if d == 0 {
        "0"
    } else if d == 1 {
        "1"
    } else if d == 2 {
        "2"
    } else if d == 3 {
        "3"
    } else if d == 4 {
        "4"
    } else if d == 5 {
        "5"
    } else if d == 6 {
        "6"
    } else if d == 7 {
        "7"
    } else if d == 8 {
        "8"
    } else {
        "9"
    }
}

/// Appends the decimal digits of `n` to `out`.
fn push_digits(out: &mut String, n: u32)
    ensures
        final(out)@ == old(out)@ + spec_digits(n as int),
    decreases n,
{
    if n < 10 {
        let ds = digit_str(n);
        out.append(ds);
        proof {
            assert(old(out)@ + ds@ =~= old(out)@ + spec_digits(n as int));
        }
    } else {
        push_digits(out, n / 10);
        let ds = digit_str(n % 10);
        out.append(ds);
        proof {
            assert((old(out)@ + spec_digits(n as int / 10)) + ds@ =~= old(out)@ + spec_digits(
                n as int,
            ));
        }
    }
}

/// Renders a count of tenths as a decimal numeral.
pub fn render_tenths(v: i64) -> (r: String)
    requires
        -2_000_000 <= v <= 2_000_000,
    ensures
        r@ == spec_render_tenths(v as int),
{
    proof {
        reveal_strlit("-");
        reveal_strlit(".");
    }
    let mut out = String::new();
    let a: i64 = if v < 0 {
        out.append("-");
        -v
    } else {
        v
    };
    push_digits(&mut out, (a / 10) as u32);
    let rem: u32 = (a % 10) as u32;
    if rem != 0 {
        out.append(".");
        let ds = digit_str(rem);
        out.append(ds);
    }
    proof {
        assert(out@ =~= spec_render_tenths(v as int));
    }
    out
}

/// A rendered count of tenths parses back to exactly that count, both
/// under truncation and under rounding: nothing is lost by a round trip
/// through the decimal form.
pub proof fn lemma_render_parse(v: int)
    requires
        -2_000_000 <= v <= 2_000_000,
    ensures
        tenths_trunc(spec_render_tenths(v)) == Some(v),
        tenths_round(spec_render_tenths(v)) == Some(v),
{
    let a = if v < 0 {
        -v
    } else {
        v
    };
    let w = spec_digits(a / 10);
    lemma_spec_digits_wf(a / 10);
    let r = spec_render_tenths(v);
    let t = if r.len() > 0 && (r[0] == '-' || r[0] == '+') {
        r.drop_first()
    } else {
        r
    };
    assert(forall|j: int| 0 <= j < w.len() ==> #[trigger] is_digit(w[j]));
    // the body after the sign is the digits, with the dot and one digit
    // when the tenths are not whole
    if a % 10 == 0 {
        if v < 0 {
            assert(r == seq!['-'] + w);
            assert(r[0] == '-');
            lemma_digit_not_punct(w[0]);
            assert(t =~= w);
        } else {
            assert(r == Seq::<char>::empty() + w);
            assert(t =~= w);
            lemma_digit_not_punct(w[0]);
            assert(!(t[0] == '-' || t[0] == '+'));
        }
        assert forall|j: int| 0 <= j < t.len() implies #[trigger] t[j] != '.' by {
            lemma_digit_not_punct(t[j]);
        };
        lemma_find_dot_from_prefix(t, t.len() as int);
        lemma_find_dot_bounds(t);
        assert(find_dot(t) == t.len());
        assert(t.take(t.len() as int) =~= t);
        assert(decimal_parts(r) == Some((v < 0, t, Seq::<char>::empty())));
        assert(digits_val(t) * 10 == a);
    } else {
        let tail = seq!['.', digit_char(a % 10)];
        if v < 0 {
            assert(r == seq!['-'] + w + tail);
            assert(r[0] == '-');
            assert(t =~= w + tail);
        } else {
            assert(r == Seq::<char>::empty() + w + tail);
            assert(t =~= w + tail);
            lemma_digit_not_punct(w[0]);
            assert(t[0] == w[0]);
            assert(!(t[0] == '-' || t[0] == '+'));
        }
        assert forall|j: int| 0 <= j < w.len() implies #[trigger] t[j] != '.' by {
            assert(t[j] == w[j]);
            lemma_digit_not_punct(w[j]);
        };
        assert(t[w.len() as int] == '.');
        lemma_find_dot_from_prefix(t, w.len() as int);
        assert(find_dot(t) == w.len());
        let ip = t.take(w.len() as int);
        let fp = t.skip(w.len() as int + 1);
        assert(ip =~= w);
        assert(fp =~= seq![digit_char(a % 10)]);
        lemma_digit_char(a % 10);
        assert(all_digits(fp));
        assert(decimal_parts(r) == Some((v < 0, ip, fp)));
        assert(first_frac(fp) == a % 10);
        assert(round_up_amount(fp) == 0);
        assert(digits_val(ip) * 10 + first_frac(fp) == a);
    }
}

} // verus!
