//! Extraction of the current temperature from the weather service's JSON
//! reply.
//!
//! The reply is an object whose `current_weather` member is an object
//! with a `temperature` member holding a decimal number; every other
//! member, whatever its shape, is tolerated and skipped.  The functions
//! here scan the text directly: strings are skipped with their escapes,
//! objects and arrays recursively, numbers and words as runs.  Keys
//! written with escape sequences are compared as written and so do not
//! match; a temperature in exponent form is not a plain decimal numeral
//! and is rejected, as is any reply of another shape.

use vstd::prelude::*;

use crate::decimal::is_digit;
use crate::decimal::parse_tenths_trunc;
use crate::decimal::tenths_trunc;

verus! {

/// JSON whitespace.
pub open spec fn is_json_ws(c: char) -> bool {
    c == ' ' || c == '\t' || c == '\n' || c == '\r'
}

/// A character that can stand in a number token.
pub open spec fn is_number_char(c: char) -> bool {
    is_digit(c) || c == '-' || c == '+' || c == '.' || c == 'e' || c == 'E'
}

/// A lower-case letter, as in `true`, `false`, `null`.
pub open spec fn is_word_char(c: char) -> bool {
    97 <= c as u32 && c as u32 <= 122
}

/// First index at or after `i` holding no whitespace.
pub open spec fn spec_skip_ws(s: Seq<char>, i: int) -> int
    decreases s.len() - i,
{
    if 0 <= i < s.len() && is_json_ws(s[i]) {
        spec_skip_ws(s, i + 1)
    } else {
        i
    }
}

/// First index at or after `i` outside a number token.
pub open spec fn spec_skip_number(s: Seq<char>, i: int) -> int
    decreases s.len() - i,
{
    if 0 <= i < s.len() && is_number_char(s[i]) {
        spec_skip_number(s, i + 1)
    } else {
        i
    }
}

/// First index at or after `i` outside a word.
pub open spec fn spec_skip_word(s: Seq<char>, i: int) -> int
    decreases s.len() - i,
{
    if 0 <= i < s.len() && is_word_char(s[i]) {
        spec_skip_word(s, i + 1)
    } else {
        i
    }
}

/// With `i` just after an opening quote: the index just after the closing
/// quote, honouring backslash escapes; `None` when the string never ends.
pub open spec fn spec_skip_string(s: Seq<char>, i: int) -> Option<int>
    decreases s.len() - i,
{
    if i < 0 || i >= s.len() {
        None
    } else if s[i] == '"' {
        Some(i + 1)
    } else if s[i] == '\\' {
        if i + 2 <= s.len() {
            spec_skip_string(s, i + 2)
        } else {
            None
        }
    } else {
        spec_skip_string(s, i + 1)
    }
}

/// With `i` at the first character of a value: the index just after the
/// value.  `fuel` bounds the nesting; with fuel beyond the text length it
/// never runs out first.
pub open spec fn spec_skip_value(s: Seq<char>, i: int, fuel: nat) -> Option<int>
    decreases fuel,
{
    if fuel == 0 || i < 0 || i >= s.len() {
        None
    } else if s[i] == '"' {
        spec_skip_string(s, i + 1)
    } else if s[i] == '{' {
        spec_skip_members(s, spec_skip_ws(s, i + 1), (fuel - 1) as nat)
    } else if s[i] == '[' {
        spec_skip_elements(s, spec_skip_ws(s, i + 1), (fuel - 1) as nat)
    } else if is_number_char(s[i]) {
        Some(spec_skip_number(s, i))
    } else if is_word_char(s[i]) {
        Some(spec_skip_word(s, i))
    } else {
        None
    }
}

/// With `i` at a closing brace or the quote of the next key: the index
/// just after the object.
pub open spec fn spec_skip_members(s: Seq<char>, i: int, fuel: nat) -> Option<int>
    decreases fuel,
{
    if fuel == 0 || i < 0 || i >= s.len() {
        None
    } else if s[i] == '}' {
        Some(i + 1)
    } else if s[i] == '"' {
        match spec_skip_string(s, i + 1) {
            None => None,
            Some(k) => {
                let c = spec_skip_ws(s, k);
                if c < s.len() && s[c] == ':' {
                    match spec_skip_value(s, spec_skip_ws(s, c + 1), (fuel - 1) as nat) {
                        None => None,
                        Some(e) => {
                            let p = spec_skip_ws(s, e);
                            if p < s.len() && s[p] == ',' {
                                spec_skip_members(s, spec_skip_ws(s, p + 1), (fuel - 1) as nat)
                            } else if p < s.len() && s[p] == '}' {
                                Some(p + 1)
                            } else {
                                None
                            }
                        },
                    }
                } else {
                    None
                }
            },
        }
    } else {
        None
    }
}

/// With `i` at a closing bracket or the first character of the next
/// element: the index just after the array.
pub open spec fn spec_skip_elements(s: Seq<char>, i: int, fuel: nat) -> Option<int>
    decreases fuel,
{
    if fuel == 0 || i < 0 || i >= s.len() {
        None
    } else if s[i] == ']' {
        Some(i + 1)
    } else {
        match spec_skip_value(s, i, (fuel - 1) as nat) {
            None => None,
            Some(e) => {
                let p = spec_skip_ws(s, e);
                if p < s.len() && s[p] == ',' {
                    spec_skip_elements(s, spec_skip_ws(s, p + 1), (fuel - 1) as nat)
                } else if p < s.len() && s[p] == ']' {
                    Some(p + 1)
                } else {
                    None
                }
            },
        }
    }
}

/// With `i` at a closing brace or the quote of the next key: the index of
/// the value belonging to the first member whose key reads as `key`
/// character for character; `None` when the object holds no such member
/// or is malformed.
pub open spec fn spec_find_key(s: Seq<char>, i: int, key: Seq<char>, fuel: nat) -> Option<int>
    decreases fuel,
{
    if fuel == 0 || i < 0 || i >= s.len() {
        None
    } else if s[i] == '}' {
        None
    } else if s[i] == '"' {
        match spec_skip_string(s, i + 1) {
            None => None,
            Some(k) => {
                let c = spec_skip_ws(s, k);
                if c < s.len() && s[c] == ':' {
                    let v = spec_skip_ws(s, c + 1);
                    if s.subrange(i + 1, k - 1) == key {
                        Some(v)
                    } else {
                        match spec_skip_value(s, v, (fuel - 1) as nat) {
                            None => None,
                            Some(e) => {
                                let p = spec_skip_ws(s, e);
                                if p < s.len() && s[p] == ',' {
                                    spec_find_key(s, spec_skip_ws(s, p + 1), key, (fuel - 1) as nat)
                                } else {
                                    None
                                }
                            },
                        }
                    }
                } else {
                    None
                }
            },
        }
    } else {
        None
    }
}

/// The truncated tenths of the reply's current temperature: the value of
/// `current_weather.temperature` times ten, truncated toward zero, or
/// `None` when the reply has no such member holding a plain decimal
/// numeral.
pub open spec fn spec_weather_deci(s: Seq<char>) -> Option<int> {
    let fuel = (s.len() + 1) as nat;
    let i0 = spec_skip_ws(s, 0);
    if i0 < s.len() && s[i0] == '{' {
        match spec_find_key(s, spec_skip_ws(s, i0 + 1), "current_weather"@, fuel) {
            None => None,
            Some(v) => if v < s.len() && s[v] == '{' {
                match spec_find_key(s, spec_skip_ws(s, v + 1), "temperature"@, fuel) {
                    None => None,
                    Some(tv) => tenths_trunc(s.subrange(tv, spec_skip_number(s, tv))),
                }
            } else {
                None
            },
        }
    } else {
        None
    }
}

fn skip_ws(s: &str, i: usize) -> (r: usize)
    requires
        i <= s@.len(),
    ensures
        r == spec_skip_ws(s@, i as int),
        i <= r <= s@.len(),
{
    let n: usize = s.unicode_len();
    let mut j: usize = i;
    loop
        invariant
            n == s@.len(),
            i <= j <= n,
            spec_skip_ws(s@, i as int) == spec_skip_ws(s@, j as int),
        ensures
            i <= j <= n,
            j == spec_skip_ws(s@, i as int),
        decreases n - j,
    {
        if j >= n {
            break ;
        }
        let c = s.get_char(j);
        if !(c == ' ' || c == '\t' || c == '\n' || c == '\r') {
            break ;
        }
        j = j + 1;
    }
    j
}

fn skip_number(s: &str, i: usize) -> (r: usize)
    requires
        i <= s@.len(),
    ensures
        r == spec_skip_number(s@, i as int),
        i <= r <= s@.len(),
{
    let n: usize = s.unicode_len();
    let mut j: usize = i;
    loop
        invariant
            n == s@.len(),
            i <= j <= n,
            spec_skip_number(s@, i as int) == spec_skip_number(s@, j as int),
        ensures
            i <= j <= n,
            j == spec_skip_number(s@, i as int),
        decreases n - j,
    {
        if j >= n {
            break ;
        }
        let c = s.get_char(j);
        let u = c as u32;
        if !(48 <= u && u <= 57 || c == '-' || c == '+' || c == '.' || c == 'e' || c == 'E') {
            break ;
        }
        j = j + 1;
    }
    j
}

fn skip_word(s: &str, i: usize) -> (r: usize)
    requires
        i <= s@.len(),
    ensures
        r == spec_skip_word(s@, i as int),
        i <= r <= s@.len(),
{
    let n: usize = s.unicode_len();
    let mut j: usize = i;
    loop
        invariant
            n == s@.len(),
            i <= j <= n,
            spec_skip_word(s@, i as int) == spec_skip_word(s@, j as int),
        ensures
            i <= j <= n,
            j == spec_skip_word(s@, i as int),
        decreases n - j,
    {
        if j >= n {
            break ;
        }
        let c = s.get_char(j);
        let u = c as u32;
        if !(97 <= u && u <= 122) {
            break ;
        }
        j = j + 1;
    }
    j
}

fn skip_string(s: &str, i: usize) -> (r: Option<usize>)
    requires
        i <= s@.len(),
    ensures
        match r {
            Some(j) => spec_skip_string(s@, i as int) == Some(j as int) && i < j <= s@.len(),
            None => spec_skip_string(s@, i as int) is None,
        },
    decreases s@.len() - i,
{
    let n: usize = s.unicode_len();
    if i >= n {
        return None;
    }
    let c = s.get_char(i);
    if c == '"' {
        Some(i + 1)
    } else if c == '\\' {
        if i < n - 1 {
            skip_string(s, i + 2)
        } else {
            None
        }
    } else {
        skip_string(s, i + 1)
    }
}

fn skip_value(s: &str, i: usize, fuel: u128) -> (r: Option<usize>)
    requires
        i <= s@.len(),
    ensures
        match r {
            Some(j) => spec_skip_value(s@, i as int, fuel as nat) == Some(j as int) && j <= s@.len(),
            None => spec_skip_value(s@, i as int, fuel as nat) is None,
        },
    decreases fuel,
{
    let n: usize = s.unicode_len();
    if fuel == 0 || i >= n {
        return None;
    }
    let c = s.get_char(i);
    if c == '"' {
        skip_string(s, i + 1)
    } else if c == '{' {
        let j = skip_ws(s, i + 1);
        skip_members(s, j, fuel - 1)
    } else if c == '[' {
        let j = skip_ws(s, i + 1);
        skip_elements(s, j, fuel - 1)
    } else {
        let u = c as u32;
        if 48 <= u && u <= 57 || c == '-' || c == '+' || c == '.' || c == 'e' || c == 'E' {
            Some(skip_number(s, i))
        } else if 97 <= u && u <= 122 {
            Some(skip_word(s, i))
        } else {
            None
        }
    }
}

fn skip_members(s: &str, i: usize, fuel: u128) -> (r: Option<usize>)
    requires
        i <= s@.len(),
    ensures
        match r {
            Some(j) => spec_skip_members(s@, i as int, fuel as nat) == Some(j as int) && j
                <= s@.len(),
            None => spec_skip_members(s@, i as int, fuel as nat) is None,
        },
    decreases fuel,
{
    let n: usize = s.unicode_len();
    if fuel == 0 || i >= n {
        return None;
    }
    let c = s.get_char(i);
    if c == '}' {
        return Some(i + 1);
    }
    if c != '"' {
        return None;
    }
    let k = match skip_string(s, i + 1) {
        None => { return None },
        Some(k) => k,
    };
    let cpos = skip_ws(s, k);
    if !(cpos < n) {
        return None;
    }
    if s.get_char(cpos) != ':' {
        return None;
    }
    let v = skip_ws(s, cpos + 1);
    let e = match skip_value(s, v, fuel - 1) {
        None => { return None },
        Some(e) => e,
    };
    let p = skip_ws(s, e);
    if p < n && s.get_char(p) == ',' {
        let next = skip_ws(s, p + 1);
        skip_members(s, next, fuel - 1)
    } else if p < n && s.get_char(p) == '}' {
        Some(p + 1)
    } else {
        None
    }
}

fn skip_elements(s: &str, i: usize, fuel: u128) -> (r: Option<usize>)
    requires
        i <= s@.len(),
    ensures
        match r {
            Some(j) => spec_skip_elements(s@, i as int, fuel as nat) == Some(j as int) && j
                <= s@.len(),
            None => spec_skip_elements(s@, i as int, fuel as nat) is None,
        },
    decreases fuel,
{
    let n: usize = s.unicode_len();
    if fuel == 0 || i >= n {
        return None;
    }
    if s.get_char(i) == ']' {
        return Some(i + 1);
    }
    let e = match skip_value(s, i, fuel - 1) {
        None => { return None },
        Some(e) => e,
    };
    let p = skip_ws(s, e);
    if p < n && s.get_char(p) == ',' {
        let next = skip_ws(s, p + 1);
        skip_elements(s, next, fuel - 1)
    } else if p < n && s.get_char(p) == ']' {
        Some(p + 1)
    } else {
        None
    }
}

/// Whether `s[a..b]` reads exactly as `key`.
fn match_range(s: &str, a: usize, b: usize, key: &str) -> (r: bool)
    requires
        a <= b <= s@.len(),
    ensures
        r == (s@.subrange(a as int, b as int) == key@),
{
    let klen: usize = key.unicode_len();
    if b - a != klen {
        proof {
            assert(s@.subrange(a as int, b as int).len() != key@.len());
        }
        return false;
    }
    let mut j: usize = 0;
    loop
        invariant
            a <= b <= s@.len(),
            b - a == klen,
            klen == key@.len(),
            j <= klen,
            forall|x: int| 0 <= x < j ==> s@.subrange(a as int, b as int)[x] == key@[x],
        ensures
            j <= klen,
            forall|x: int| 0 <= x < j ==> s@.subrange(a as int, b as int)[x] == key@[x],
            j == klen || s@[a + j] != key@[j as int],
        decreases klen - j,
    {
        if j >= klen {
            break ;
        }
        let cs = s.get_char(a + j);
        let ck = key.get_char(j);
        if cs != ck {
            proof {
                assert(s@[a + j] != key@[j as int]);
            }
            break ;
        }
        proof {
            assert(s@.subrange(a as int, b as int)[j as int] == s@[a + j]);
        }
        j = j + 1;
    }
    if j == klen {
        proof {
            assert(s@.subrange(a as int, b as int) =~= key@);
        }
        true
    } else {
        proof {
            assert(s@.subrange(a as int, b as int)[j as int] == s@[a + j]);
            assert(s@.subrange(a as int, b as int) != key@);
        }
        false
    }
}

fn find_key(s: &str, i: usize, key: &str, fuel: u128) -> (r: Option<usize>)
    requires
        i <= s@.len(),
    ensures
        match r {
            Some(j) => spec_find_key(s@, i as int, key@, fuel as nat) == Some(j as int) && j
                <= s@.len(),
            None => spec_find_key(s@, i as int, key@, fuel as nat) is None,
        },
    decreases fuel,
{
    let n: usize = s.unicode_len();
    if fuel == 0 || i >= n {
        return None;
    }
    let c = s.get_char(i);
    if c == '}' {
        return None;
    }
    if c != '"' {
        return None;
    }
    let k = match skip_string(s, i + 1) {
        None => { return None },
        Some(k) => k,
    };
    let cpos = skip_ws(s, k);
    if !(cpos < n) {
        return None;
    }
    if s.get_char(cpos) != ':' {
        return None;
    }
    let v = skip_ws(s, cpos + 1);
    if match_range(s, i + 1, k - 1, key) {
        return Some(v);
    }
    let e = match skip_value(s, v, fuel - 1) {
        None => { return None },
        Some(e) => e,
    };
    let p = skip_ws(s, e);
    if p < n && s.get_char(p) == ',' {
        let next = skip_ws(s, p + 1);
        find_key(s, next, key, fuel - 1)
    } else {
        None
    }
}

/// Reads the reply and returns the current temperature as truncated
/// tenths of a degree; values of overwhelming magnitude come back
/// saturated, far beyond anything quantization accepts.
pub fn weather_body_deci(s: &str) -> (r: Option<i64>)
    ensures
        match r {
            None => spec_weather_deci(s@) is None,
            Some(v) => spec_weather_deci(s@) matches Some(w) && (w == v || (w > 1_000_000 && v
                == 1_000_000) || (w < -1_000_000 && v == -1_000_000)),
        },
{
    let n: usize = s.unicode_len();
    let fuel: u128 = n as u128 + 1;
    let i0 = skip_ws(s, 0);
    if !(i0 < n) {
        return None;
    }
    if s.get_char(i0) != '{' {
        return None;
    }
    let j = skip_ws(s, i0 + 1);
    let v = match find_key(s, j, "current_weather", fuel) {
        None => { return None },
        Some(v) => v,
    };
    if !(v < n) {
        return None;
    }
    if s.get_char(v) != '{' {
        return None;
    }
    let j2 = skip_ws(s, v + 1);
    let tv = match find_key(s, j2, "temperature", fuel) {
        None => { return None },
        Some(tv) => tv,
    };
    let e = skip_number(s, tv);
    let num = s.substring_char(tv, e);
    parse_tenths_trunc(num)
}

} // verus!
