//! The numeric side of the format: which byte strings count as coordinate
//! scalars (the tokens `str::parse::<f32>` accepts), and the deliberately
//! lenient reading of 1-based face-index components.

use vstd::prelude::*;
use crate::lexer::{lemma_run_until_unique, run_until};

verus! {

pub const PLUS: u8 = 43;

pub const MINUS: u8 = 45;

pub const DOT: u8 = 46;

pub const UPPER_E: u8 = 69;

pub const LOWER_E: u8 = 101;

pub open spec fn is_digit(b: u8) -> bool {
    48 <= b <= 57
}

pub open spec fn is_digit_seq(s: Seq<u8>) -> bool {
    forall|i: int| 0 <= i < s.len() ==> is_digit(s[i])
}

/// The number a string of decimal digits denotes.
pub open spec fn digits_value(s: Seq<u8>) -> int
    decreases s.len(),
{
    if s.len() == 0 {
        0
    } else {
        digits_value(s.drop_last()) * 10 + (s.last() - 48)
    }
}

pub proof fn lemma_digits_value_nonneg(s: Seq<u8>)
    requires
        is_digit_seq(s),
    ensures
        digits_value(s) >= 0,
    decreases s.len(),
{
    if s.len() > 0 {
        assert(is_digit_seq(s.drop_last()));
        lemma_digits_value_nonneg(s.drop_last());
    }
}

pub open spec fn is_sign(b: u8) -> bool {
    b == PLUS || b == MINUS
}

pub open spec fn strip_sign(t: Seq<u8>) -> Seq<u8> {
    if t.len() > 0 && is_sign(t[0]) {
        t.skip(1)
    } else {
        t
    }
}

pub open spec fn strip_plus(t: Seq<u8>) -> Seq<u8> {
    if t.len() > 0 && t[0] == PLUS {
        t.skip(1)
    } else {
        t
    }
}

/// Whether `str::parse::<u32>` accepts `t`: an optional `+`, then at least
/// one digit, denoting a number that fits in 32 bits.
pub open spec fn parses_as_u32(t: Seq<u8>) -> bool {
    let v = strip_plus(t);
    v.len() > 0 && is_digit_seq(v) && digits_value(v) <= u32::MAX
}

pub open spec fn parsed_u32(t: Seq<u8>) -> u32 {
    digits_value(strip_plus(t)) as u32
}

/// The coordinate-record index one face-index component resolves to.
/// Components are 1-based in the source, so a component that parses to `n`
/// with `n >= 1` resolves to `n - 1`; everything else — an absent
/// component, a malformed one, zero, or a number out of 32-bit range —
/// is coerced to index 0 rather than rejected.
pub open spec fn face_component_index(t: Seq<u8>) -> u32 {
    if parses_as_u32(t) && parsed_u32(t) >= 1 {
        (parsed_u32(t) - 1) as u32
    } else {
        0
    }
}

pub open spec fn ascii_lower(b: u8) -> u8 {
    if 65 <= b <= 90 {
        (b + 32) as u8
    } else {
        b
    }
}

/// Letter-case-insensitive match of `t` against a lower-case word `w`.
pub open spec fn matches_word(t: Seq<u8>, w: Seq<u8>) -> bool {
    t.len() == w.len() && forall|i: int| 0 <= i < t.len() ==> ascii_lower(t[i]) == w[i]
}

pub open spec fn inf_word() -> Seq<u8> {
    seq![105u8, 110, 102]
}

pub open spec fn infinity_word() -> Seq<u8> {
    seq![105u8, 110, 102, 105, 110, 105, 116, 121]
}

pub open spec fn nan_word() -> Seq<u8> {
    seq![110u8, 97, 110]
}

/// The special non-finite spellings `str::parse::<f32>` accepts after the
/// optional sign.
pub open spec fn is_special_float_body(t: Seq<u8>) -> bool {
    matches_word(t, inf_word()) || matches_word(t, infinity_word()) || matches_word(t, nan_word())
}

pub open spec fn is_exp_byte(b: u8) -> bool {
    b == LOWER_E || b == UPPER_E
}

/// Length of the leading run of bytes that are not an exponent marker.
pub open spec fn exp_run(s: Seq<u8>) -> nat
    decreases s.len(),
{
    if s.len() == 0 || is_exp_byte(s[0]) {
        0
    } else {
        1 + exp_run(s.skip(1))
    }
}

pub proof fn lemma_exp_run_unique(s: Seq<u8>, k: nat)
    requires
        k <= s.len(),
        forall|i: int| 0 <= i < k ==> !is_exp_byte(s[i]),
        k < s.len() ==> is_exp_byte(s[k as int]),
    ensures
        exp_run(s) == k,
    decreases s.len(),
{
    if s.len() == 0 {
    } else if is_exp_byte(s[0]) {
        assert(k == 0);
    } else {
        assert(k >= 1);
        lemma_exp_run_unique(s.skip(1), (k - 1) as nat);
    }
}

/// Digits with at most one decimal point and at least one digit overall.
pub open spec fn is_mantissa(m: Seq<u8>) -> bool {
    let j = run_until(m, DOT);
    if j >= m.len() {
        m.len() > 0 && is_digit_seq(m)
    } else {
        is_digit_seq(m.take(j as int)) && is_digit_seq(m.skip(j as int + 1)) && m.len() >= 2
    }
}

/// An optional sign, then at least one digit.
pub open spec fn is_exp_part(u: Seq<u8>) -> bool {
    let v = strip_sign(u);
    v.len() > 0 && is_digit_seq(v)
}

/// A mantissa, optionally followed by an exponent marker and exponent.
pub open spec fn is_decimal_body(t: Seq<u8>) -> bool {
    let e = exp_run(t);
    if e >= t.len() {
        is_mantissa(t)
    } else {
        is_mantissa(t.take(e as int)) && is_exp_part(t.skip(e as int + 1))
    }
}

/// The numeric tokens `str::parse::<f32>` accepts: an optional sign, then
/// either a decimal number with optional fraction and exponent, or one of
/// the words `inf`, `infinity`, `nan`, letter case ignored.
pub open spec fn is_float_token(t: Seq<u8>) -> bool {
    let body = strip_sign(t);
    is_special_float_body(body) || is_decimal_body(body)
}

fn ascii_lower_byte(b: u8) -> (r: u8)
    ensures
        r == ascii_lower(b),
{
    if 65 <= b && b <= 90 {
        b + 32
    } else {
        b
    }
}

/// Whether the bytes of `token` from `from` on match the lower-case word
/// `w`, letter case ignored.
fn matches_word_from(token: &Vec<u8>, from: usize, w: &Vec<u8>) -> (r: bool)
    requires
        from <= token@.len(),
    ensures
        r == matches_word(token@.skip(from as int), w@),
{
    let n = token.len();
    if n - from != w.len() {
        return false;
    }
    let mut i: usize = 0;
    while i < w.len()
        invariant
            0 <= i <= w@.len(),
            n == token@.len(),
            from + w@.len() == n,
            forall|m: int| 0 <= m < i ==> ascii_lower(token@.skip(from as int)[m]) == w@[m],
        decreases w@.len() - i,
    {
        if ascii_lower_byte(token[from + i]) != w[i] {
            proof {
                assert(token@.skip(from as int)[i as int] == token@[from + i]);
            }
            return false;
        }
        proof {
            assert(token@.skip(from as int)[i as int] == token@[from + i]);
        }
        i += 1;
    }
    true
}

fn word_inf() -> (w: Vec<u8>)
    ensures
        w@ == inf_word(),
{
    let mut w: Vec<u8> = Vec::new();
    w.push(105);
    w.push(110);
    w.push(102);
    proof {
        assert(w@ =~= inf_word());
    }
    w
}

fn word_infinity() -> (w: Vec<u8>)
    ensures
        w@ == infinity_word(),
{
    let mut w: Vec<u8> = Vec::new();
    w.push(105);
    w.push(110);
    w.push(102);
    w.push(105);
    w.push(110);
    w.push(105);
    w.push(116);
    w.push(121);
    proof {
        assert(w@ =~= infinity_word());
    }
    w
}

fn word_nan() -> (w: Vec<u8>)
    ensures
        w@ == nan_word(),
{
    let mut w: Vec<u8> = Vec::new();
    w.push(110);
    w.push(97);
    w.push(110);
    proof {
        assert(w@ =~= nan_word());
    }
    w
}

/// Whether every byte of `token` in `from..to` is a digit.
fn digits_in_range(token: &Vec<u8>, from: usize, to: usize) -> (r: bool)
    requires
        from <= to <= token@.len(),
    ensures
        r == is_digit_seq(token@.subrange(from as int, to as int)),
{
    let mut i = from;
    while i < to
        invariant
            from <= i <= to <= token@.len(),
            forall|m: int| from <= m < i ==> is_digit(token@[m]),
        decreases to - i,
    {
        let b = token[i];
        if b < 48 || b > 57 {
            proof {
                assert(token@.subrange(from as int, to as int)[i - from] == token@[i as int]);
            }
            return false;
        }
        i += 1;
    }
    proof {
        assert forall|m: int| 0 <= m < to - from implies is_digit(
            token@.subrange(from as int, to as int)[m],
        ) by {
            assert(token@.subrange(from as int, to as int)[m] == token@[from + m]);
        }
    }
    true
}

/// Whether `token[from..to]` is a mantissa.
fn check_mantissa(token: &Vec<u8>, from: usize, to: usize) -> (r: bool)
    requires
        from <= to <= token@.len(),
    ensures
        r == is_mantissa(token@.subrange(from as int, to as int)),
{
    let ghost m = token@.subrange(from as int, to as int);
    let mut j = from;
    while j < to && token[j] != DOT
        invariant
            from <= j <= to <= token@.len(),
            forall|i: int| from <= i < j ==> token@[i] != DOT,
        decreases to - j,
    {
        j += 1;
    }
    proof {
        assert forall|i: int| 0 <= i < j - from implies m[i] != DOT by {
            assert(m[i] == token@[from + i]);
        }
        if j < to {
            assert(m[j - from] == token@[j as int]);
        }
        lemma_run_until_unique(m, DOT, (j - from) as nat);
    }
    if j == to {
        let r = to > from && digits_in_range(token, from, to);
        proof {
            assert(m =~= token@.subrange(from as int, to as int));
        }
        r
    } else {
        let digits_before = digits_in_range(token, from, j);
        let digits_after = digits_in_range(token, j + 1, to);
        let r = digits_before && digits_after && to - from >= 2;
        proof {
            assert(m.take(j - from) =~= token@.subrange(from as int, j as int));
            assert(m.skip(j - from + 1) =~= token@.subrange(j + 1, to as int));
        }
        r
    }
}

/// Whether `token[from..]` is an exponent: optional sign, then digits.
fn check_exp_part(token: &Vec<u8>, from: usize) -> (r: bool)
    requires
        from <= token@.len(),
    ensures
        r == is_exp_part(token@.skip(from as int)),
{
    let n = token.len();
    let mut a = from;
    if a < n && (token[a] == PLUS || token[a] == MINUS) {
        a = a + 1;
    }
    proof {
        assert(strip_sign(token@.skip(from as int)) =~= token@.subrange(a as int, n as int));
    }
    a < n && digits_in_range(token, a, n)
}

/// Whether `token` is a numeric token `str::parse::<f32>` would accept.
pub fn check_float_token(token: &Vec<u8>) -> (ok: bool)
    ensures
        ok == is_float_token(token@),
{
    let n = token.len();
    let mut s: usize = 0;
    if n > 0 && (token[0] == PLUS || token[0] == MINUS) {
        s = 1;
    }
    let ghost body = strip_sign(token@);
    proof {
        assert(body =~= token@.skip(s as int));
    }
    let inf = word_inf();
    let infinity = word_infinity();
    let nan = word_nan();
    if matches_word_from(token, s, &inf) || matches_word_from(token, s, &infinity)
        || matches_word_from(token, s, &nan) {
        return true;
    }
    let mut e = s;
    while e < n && !(token[e] == LOWER_E || token[e] == UPPER_E)
        invariant
            s <= e <= n,
            n == token@.len(),
            forall|m: int| s <= m < e ==> !is_exp_byte(token@[m]),
        decreases n - e,
    {
        e += 1;
    }
    proof {
        assert forall|i: int| 0 <= i < e - s implies !is_exp_byte(body[i]) by {
            assert(body[i] == token@[s + i]);
        }
        if e < n {
            assert(body[e - s] == token@[e as int]);
        }
        lemma_exp_run_unique(body, (e - s) as nat);
    }
    let mant_ok = check_mantissa(token, s, e);
    if e == n {
        proof {
            assert(body =~= token@.subrange(s as int, e as int));
        }
        mant_ok
    } else {
        let r = mant_ok && check_exp_part(token, e + 1);
        proof {
            assert(body.take(e - s) =~= token@.subrange(s as int, e as int));
            assert(body.skip(e - s + 1) =~= token@.skip(e + 1));
        }
        r
    }
}

/// The coordinate-record index one face-index component resolves to:
/// `n - 1` for a component that parses as an integer `n >= 1`, and 0 for
/// everything else.
pub fn parse_face_component(token: &Vec<u8>) -> (index: u32)
    ensures
        index == face_component_index(token@),
{
    let n = token.len();
    let mut i: usize = 0;
    if n > 0 && token[0] == PLUS {
        i = 1;
    }
    let ghost v = strip_plus(token@);
    proof {
        assert(v =~= token@.skip(i as int));
    }
    if i == n {
        return 0;
    }
    let mut value: u64 = 0;
    let mut over = false;
    let mut j = i;
    while j < n
        invariant
            i <= j <= n,
            n == token@.len(),
            v == strip_plus(token@),
            v =~= token@.skip(i as int),
            is_digit_seq(token@.subrange(i as int, j as int)),
            !over ==> value == digits_value(token@.subrange(i as int, j as int)) && value
                <= u32::MAX,
            over ==> digits_value(token@.subrange(i as int, j as int)) > u32::MAX,
        decreases n - j,
    {
        let b = token[j];
        if b < 48 || b > 57 {
            proof {
                assert(v[j - i] == token@[j as int]);
                assert(!is_digit(v[j - i]));
                assert(!is_digit_seq(v));
                assert(!parses_as_u32(token@));
            }
            return 0;
        }
        proof {
            let pre = token@.subrange(i as int, j as int);
            let cur = token@.subrange(i as int, j + 1);
            assert(cur.drop_last() =~= pre);
            assert(cur.last() == token@[j as int]);
            if over {
                lemma_digits_value_nonneg(pre);
            }
        }
        if !over {
            value = value * 10 + ((b - 48) as u64);
            if value > 0xFFFF_FFFF {
                over = true;
            }
        }
        j += 1;
    }
    proof {
        assert(v =~= token@.subrange(i as int, n as int));
    }
    if over {
        return 0;
    }
    let v32 = value as u32;
    if v32 >= 1 {
        v32 - 1
    } else {
        0
    }
}

} // verus!
