//! Decimal numbers in text: parsing integers and fixed-point values, and
//! printing them the way the frames show them.
//!
//! A measured quantity (a percentage, a temperature, a rate) is carried as
//! a whole number of thousandths ("milli-units").

use vstd::prelude::*;
use crate::text::{
    find, find_from, is_ascii_digit, is_ascii_digit_char, lemma_find_from, push_all, slice, str_chars,
};

verus! {

/// The value of an ASCII digit.
pub open spec fn digit_value(c: char) -> int {
    c as u32 - '0' as u32
}

pub open spec fn all_digits(s: Seq<char>) -> bool {
    forall|i: int| 0 <= i < s.len() ==> is_ascii_digit(#[trigger] s[i])
}

/// The number that a string of decimal digits denotes.
pub open spec fn digits_value(s: Seq<char>) -> nat
    decreases s.len(),
{
    if s.len() == 0 {
        0
    } else {
        (digits_value(s.drop_last()) * 10 + digit_value(s.last())) as nat
    }
}

proof fn lemma_digits_value_step(s: Seq<char>, k: int)
    requires
        0 <= k < s.len(),
        all_digits(s),
    ensures
        digits_value(s.take(k + 1)) == digits_value(s.take(k)) * 10 + digit_value(s[k]),
{
    assert(s.take(k + 1).drop_last() =~= s.take(k));
    assert(is_ascii_digit(s[k]));
}

proof fn lemma_digits_value_mono(s: Seq<char>, k: int)
    requires
        0 <= k <= s.len(),
        all_digits(s),
    ensures
        digits_value(s.take(k)) <= digits_value(s),
    decreases s.len() - k,
{
    if k < s.len() {
        lemma_digits_value_step(s, k);
        lemma_digits_value_mono(s, k + 1);
    } else {
        assert(s.take(k) =~= s);
    }
}

/// The value of an unsigned integer in text, as `str::parse` reads it for
/// unsigned types: an optional `+`, then at least one ASCII digit.
pub open spec fn unsigned_value(s: Seq<char>) -> Option<nat> {
    let body = if s.len() > 0 && s[0] == '+' {
        s.drop_first()
    } else {
        s
    };
    if body.len() > 0 && all_digits(body) {
        Some(digits_value(body))
    } else {
        None
    }
}

/// The value of a string of digits, if it is at most `limit`.
fn digits_upto(s: &Vec<char>, lo: usize, limit: u64) -> (r: Option<u64>)
    requires
        lo <= s.len(),
    ensures
        match r {
            Some(v) => all_digits(s@.skip(lo as int)) && digits_value(s@.skip(lo as int)) == v
                && v <= limit,
            None => !all_digits(s@.skip(lo as int)) || digits_value(s@.skip(lo as int)) > limit,
        },
{
    let ghost t = s@.skip(lo as int);
    let mut v: u64 = 0;
    let mut i = lo;
    let mut over = false;
    assert(t.take(0) =~= Seq::<char>::empty());
    while i < s.len()
        invariant
            lo <= i <= s.len(),
            t == s@.skip(lo as int),
            all_digits(t.take(i - lo)),
            !over ==> v == digits_value(t.take(i - lo)) && v <= limit,
            over ==> digits_value(t.take(i - lo)) > limit,
        decreases s.len() - i,
    {
        let c = s[i];
        if !is_ascii_digit_char(c) {
            assert(t[i - lo] == c);
            return None;
        }
        proof {
            assert(all_digits(t.take(i - lo + 1))) by {
                assert forall|j: int| 0 <= j < i - lo + 1 implies is_ascii_digit(#[trigger] t.take(i - lo + 1)[j]) by {
                    if j < i - lo {
                        assert(t.take(i - lo + 1)[j] == t.take(i - lo)[j]);
                    }
                }
            }
            lemma_digits_value_step(t.take(i - lo + 1), i - lo);
            assert(t.take(i - lo + 1).take(i - lo) =~= t.take(i - lo));
        }
        let d = (c as u32 - 48) as u64;
        if !over {
            if d > limit || v > (limit - d) / 10 {
                over = true;
                assert(v * 10 + d > limit) by (nonlinear_arith)
                    requires d > limit || v > (limit - d) / 10, d <= limit ==> (limit - d) / 10 * 10 + 10 > limit - d;
            } else {
                assert(v * 10 + d <= limit) by (nonlinear_arith)
                    requires v <= (limit - d) / 10;
                v = v * 10 + d;
            }
        }
        i = i + 1;
    }
    assert(t.take(i - lo) =~= t);
    if over {
        None
    } else {
        Some(v)
    }
}


/// An unsigned integer in text, if its value is at most `limit`
/// (`str::parse` for an unsigned type whose largest value is `limit`).
fn parse_unsigned(s: &Vec<char>, limit: u64) -> (r: Option<u64>)
    ensures
        match r {
            Some(v) => unsigned_value(s@) == Some(v as nat) && v <= limit,
            None => unsigned_value(s@) is None || unsigned_value(s@).unwrap() > limit,
        },
{
    let lo: usize = if s.len() > 0 && s[0] == '+' {
        1
    } else {
        0
    };
    proof {
        if lo == 1 {
            assert(s@.skip(1) =~= s@.drop_first());
        } else {
            assert(s@.skip(0) =~= s@);
        }
    }
    if lo == s.len() {
        return None;
    }
    digits_upto(s, lo, limit)
}

/// `str::parse::<u64>`: `None` where the text is no unsigned integer or its
/// value does not fit.
pub fn parse_u64(s: &Vec<char>) -> (r: Option<u64>)
    ensures
        match r {
            Some(v) => unsigned_value(s@) == Some(v as nat),
            None => unsigned_value(s@) is None || unsigned_value(s@).unwrap() > u64::MAX,
        },
{
    parse_unsigned(s, u64::MAX)
}

/// `str::parse::<u32>`: `None` where the text is no unsigned integer or its
/// value does not fit.
pub fn parse_u32(s: &Vec<char>) -> (r: Option<u32>)
    ensures
        match r {
            Some(v) => unsigned_value(s@) == Some(v as nat),
            None => unsigned_value(s@) is None || unsigned_value(s@).unwrap() > u32::MAX,
        },
{
    match parse_unsigned(s, u32::MAX as u64) {
        Some(v) => Some(v as u32),
        None => None,
    }
}

/// The sign and the rest of a signed number.
pub open spec fn sign_split(s: Seq<char>) -> (bool, Seq<char>) {
    if s.len() > 0 && s[0] == '-' {
        (true, s.drop_first())
    } else if s.len() > 0 && s[0] == '+' {
        (false, s.drop_first())
    } else {
        (false, s)
    }
}

/// The integer and fraction digits of an unsigned decimal number.
pub open spec fn point_split(b: Seq<char>) -> (Seq<char>, Seq<char>) {
    match find_from(b, seq!['.'], 0) {
        Some(k) => (b.take(k), b.skip(k + 1)),
        None => (b, Seq::empty()),
    }
}

/// The position of the first exponent marker (`e` or `E`) at or after `i`.
pub open spec fn exp_index_from(b: Seq<char>, i: int) -> Option<int>
    decreases b.len() - i,
{
    if i < 0 || i >= b.len() {
        None
    } else if b[i] == 'e' || b[i] == 'E' {
        Some(i)
    } else {
        exp_index_from(b, i + 1)
    }
}

/// The mantissa and, after the first `e` or `E`, the exponent of a number.
pub open spec fn exp_split(b: Seq<char>) -> (Seq<char>, Option<Seq<char>>) {
    match exp_index_from(b, 0) {
        Some(i) => (b.take(i), Some(b.skip(i + 1))),
        None => (b, None),
    }
}

/// A signed integer: an optional sign and at least one digit.
pub open spec fn exponent_value(t: Seq<char>) -> Option<int> {
    let (n, d) = sign_split(t);
    if d.len() > 0 && all_digits(d) {
        Some(signed(n, digits_value(d)))
    } else {
        None
    }
}

/// `m` with the sign `-` when `neg`.
pub open spec fn signed(neg: bool, m: nat) -> int {
    if neg {
        -(m as int)
    } else {
        m as int
    }
}

/// A number in finite float notation, as `str::parse` reads floats: an
/// optional sign, digits with an optional point (at least one digit in
/// all), and an optional exponent (`e` or `E`, an optional sign, digits).
/// Its parts are the sign, the mantissa's digits (integer and fraction
/// digits together) and the power of ten that scales them: the value is
/// ±digits·10^power.
pub open spec fn decimal_parts(s: Seq<char>) -> Option<(bool, Seq<char>, int)> {
    let (neg, body) = sign_split(s);
    let (mant, ex) = exp_split(body);
    let (ip, fp) = point_split(mant);
    let e = match ex {
        Some(t) => exponent_value(t),
        None => Some(0int),
    };
    if all_digits(ip) && all_digits(fp) && ip.len() + fp.len() > 0 && e is Some {
        Some((neg, ip + fp, e.unwrap() - fp.len()))
    } else {
        None
    }
}

/// An exponent with its magnitude held to at most 2^80, as a parsed
/// number keeps it.
pub open spec fn capped_exponent(t: Seq<char>) -> Option<int> {
    let (n, d) = sign_split(t);
    if d.len() > 0 && all_digits(d) {
        Some(
            signed(
                n,
                if digits_value(d) > big_scale() {
                    big_scale() as nat
                } else {
                    digits_value(d)
                },
            ),
        )
    } else {
        None
    }
}

/// The parts of a number as `decimal_parts` gives them, with the power of
/// ten taken from the exponent held to at most 2^80 in magnitude (where
/// the exponent is smaller, which is every exponent a float can carry,
/// the power is exact).
pub open spec fn scaled_parts(s: Seq<char>) -> Option<(bool, Seq<char>, int)> {
    let (neg, body) = sign_split(s);
    let (mant, ex) = exp_split(body);
    let (ip, fp) = point_split(mant);
    let e = match ex {
        Some(t) => capped_exponent(t),
        None => Some(0int),
    };
    if all_digits(ip) && all_digits(fp) && ip.len() + fp.len() > 0 && e is Some {
        Some((neg, ip + fp, e.unwrap() - fp.len()))
    } else {
        None
    }
}

/// The digits of a number's parts are ASCII digits.
pub proof fn lemma_decimal_parts_digits(s: Seq<char>)
    ensures
        decimal_parts(s) matches Some((n, d, e)) ==> all_digits(d),
{
    let (neg, body) = sign_split(s);
    let (mant, ex) = exp_split(body);
    let (ip, fp) = point_split(mant);
    if all_digits(ip) && all_digits(fp) {
        let d = ip + fp;
        assert forall|j: int| 0 <= j < d.len() implies is_ascii_digit(#[trigger] d[j]) by {
            if j < ip.len() {
                assert(d[j] == ip[j]);
            } else {
                assert(d[j] == fp[j - ip.len()]);
            }
        }
    }
}

/// The powers of five that the float bounds use.
pub proof fn lemma_pow5_values()
    ensures
        pow5(17) == 762939453125,
        pow5(20) == 95367431640625,
        pow5(36) == 14551915228366851806640625,
        pow5(44) == 5684341886080801486968994140625,
        pow5(46) == 142108547152020037174224853515625,
        pow5(49) == 17763568394002504646778106689453125,
{
    reveal_with_fuel(pow5, 50);
}

pub open spec fn pow10(n: nat) -> nat
    decreases n,
{
    if n == 0 {
        1
    } else {
        10 * pow10((n - 1) as nat)
    }
}

/// The magnitude of digits·10^e in thousandths, cut toward zero.
pub open spec fn cut_milli(d: Seq<char>, e: int) -> nat {
    if e + 3 >= 0 {
        digits_value(d) * pow10((e + 3) as nat)
    } else if -(e + 3) >= d.len() {
        0
    } else {
        digits_value(d.take(d.len() + e + 3))
    }
}

/// Nothing is cut off: digits·10^e is a whole number of thousandths.
pub open spec fn cut_exact(d: Seq<char>, e: int) -> bool {
    e + 3 >= 0 || forall|i: int| d.len() + e + 3 <= i < d.len() && 0 <= i ==> #[trigger] d[i] == '0'
}

/// The value of a number in thousandths, cut toward zero.
pub open spec fn decimal_milli(s: Seq<char>) -> Option<int> {
    match decimal_parts(s) {
        Some((n, d, e)) => Some(signed(n, cut_milli(d, e))),
        None => None,
    }
}

/// The largest magnitude, in thousandths, that a parsed value may have.
pub open spec fn milli_limit() -> int {
    i64::MAX as int
}

/// The bound beyond which a power of ten is held only by its sign.
pub open spec fn big_scale() -> int {
    0x1_0000_0000_0000_0000_0000
}

/// Two powers of ten scale a number alike: they are equal, or both far
/// beyond what any text's digits could make up for.
pub open spec fn same_scale(e: int, c: int) -> bool {
    e == c || (e >= big_scale() / 2 && c >= big_scale() / 2) || (e <= -big_scale() / 2 && c
        <= -big_scale() / 2)
}

/// A number's parts, as `decimal_parts` gives them; the power of ten is
/// exact up to a magnitude of 2^80, and beyond that held by its sign.
pub struct Decimal {
    pub neg: bool,
    pub digits: Vec<char>,
    pub scale: i128,
}

proof fn lemma_exp_index_from(b: Seq<char>, i: int)
    requires
        0 <= i,
    ensures
        exp_index_from(b, i) matches Some(j) ==> i <= j < b.len(),
    decreases b.len() - i,
{
    if i < b.len() && !(b[i] == 'e' || b[i] == 'E') {
        lemma_exp_index_from(b, i + 1);
    }
}

proof fn lemma_pow10_pos(n: nat)
    ensures
        pow10(n) >= 1,
    decreases n,
{
    if n > 0 {
        lemma_pow10_pos((n - 1) as nat);
    }
}

proof fn lemma_pow10_big(n: nat)
    requires
        n >= 20,
    ensures
        pow10(n) > u64::MAX,
    decreases n,
{
    if n == 20 {
        reveal_with_fuel(pow10, 21);
    } else {
        lemma_pow10_big((n - 1) as nat);
    }
}

fn all_digits_exec(v: &Vec<char>) -> (b: bool)
    ensures
        b == all_digits(v@),
{
    let mut i: usize = 0;
    while i < v.len()
        invariant
            i <= v.len(),
            forall|j: int| 0 <= j < i ==> is_ascii_digit(#[trigger] v@[j]),
        decreases v.len() - i,
    {
        if !is_ascii_digit_char(v[i]) {
            return false;
        }
        i = i + 1;
    }
    true
}

/// Whether the characters of `v` from `lo` on are all `0`.
fn zeros_from(v: &Vec<char>, lo: usize) -> (b: bool)
    ensures
        b == forall|j: int| lo <= j < v@.len() ==> #[trigger] v@[j] == '0',
{
    let mut i: usize = lo;
    while i < v.len()
        invariant
            lo <= i,
            forall|j: int| lo <= j < i && j < v@.len() ==> #[trigger] v@[j] == '0',
        decreases v.len() - i,
    {
        if v[i] != '0' {
            return false;
        }
        i = i + 1;
    }
    true
}

/// The value of a string of digits, held up to 2^80 (and flagged beyond).
fn digits_sat(d: &Vec<char>) -> (r: (u128, bool))
    requires
        all_digits(d@),
    ensures
        !r.1 ==> r.0 == digits_value(d@) && r.0 <= big_scale(),
        r.1 ==> digits_value(d@) > big_scale(),
{
    let big: u128 = 0x1_0000_0000_0000_0000_0000;
    let mut v: u128 = 0;
    let mut sat = false;
    let mut i: usize = 0;
    assert(d@.take(0) =~= Seq::<char>::empty());
    while i < d.len()
        invariant
            i <= d.len(),
            all_digits(d@),
            big == big_scale(),
            !sat ==> v == digits_value(d@.take(i as int)) && v <= big,
            sat ==> digits_value(d@.take(i as int)) > big,
        decreases d.len() - i,
    {
        proof {
            lemma_digits_value_step(d@, i as int);
            assert(is_ascii_digit(d@[i as int]));
        }
        let dg = (d[i] as u32 - 48) as u128;
        if !sat {
            let nv = v * 10 + dg;
            if nv > big {
                sat = true;
            } else {
                v = nv;
            }
        }
        i = i + 1;
    }
    assert(d@.take(d.len() as int) =~= d@);
    (v, sat)
}

/// The first `e` or `E` in `b`.
fn exp_index(b: &Vec<char>) -> (r: Option<usize>)
    ensures
        match r {
            Some(i) => exp_index_from(b@, 0) == Some(i as int) && i < b.len(),
            None => exp_index_from(b@, 0) is None,
        },
{
    let mut i: usize = 0;
    while i < b.len()
        invariant
            i <= b.len(),
            exp_index_from(b@, 0) == exp_index_from(b@, i as int),
        decreases b.len() - i,
    {
        if b[i] == 'e' || b[i] == 'E' {
            return Some(i);
        }
        i = i + 1;
    }
    None
}

/// The sign of a number and the rest of it.
fn split_sign(s: &Vec<char>) -> (r: (bool, Vec<char>))
    ensures
        sign_split(s@) == (r.0, r.1@),
{
    let neg = s.len() > 0 && s[0] == '-';
    let signed = s.len() > 0 && (s[0] == '-' || s[0] == '+');
    let body = if signed {
        slice(s, 1, s.len())
    } else {
        slice(s, 0, s.len())
    };
    proof {
        if signed {
            assert(body@ =~= s@.drop_first());
        } else {
            assert(body@ =~= s@);
        }
    }
    (neg, body)
}

/// Reads a number in finite float notation, as `decimal_parts` says.
pub fn parse_decimal(s: &Vec<char>) -> (r: Option<Decimal>)
    ensures
        match r {
            Some(x) => {
                &&& decimal_parts(s@) is Some
                &&& decimal_parts(s@).unwrap().0 == x.neg
                &&& decimal_parts(s@).unwrap().1 == x.digits@
                &&& same_scale(decimal_parts(s@).unwrap().2, x.scale as int)
                &&& scaled_parts(s@) == Some((x.neg, x.digits@, x.scale as int))
                &&& all_digits(x.digits@)
                &&& -2 * big_scale() <= x.scale <= 2 * big_scale()
            },
            None => decimal_parts(s@) is None,
        },
{
    let (neg, body) = split_sign(s);
    let (mant, ex) = match exp_index(&body) {
        Some(i) => (slice(&body, 0, i), Some(slice(&body, i + 1, body.len()))),
        None => (slice(&body, 0, body.len()), None),
    };
    proof {
        lemma_exp_index_from(body@, 0);
        match exp_index_from(body@, 0) {
            Some(i) => {
                assert(mant@ =~= body@.take(i));
                assert(ex.unwrap()@ =~= body@.skip(i + 1));
            },
            None => {
                assert(mant@ =~= body@);
            },
        }
    }
    let dot = str_chars(".");
    proof {
        reveal_strlit(".");
        assert(dot@ =~= seq!['.']);
    }
    let (ip, fp) = match find(&mant, &dot, 0) {
        Some(k) => {
            proof {
                lemma_find_from(mant@, dot@, 0);
            }
            (slice(&mant, 0, k), slice(&mant, k + 1, mant.len()))
        },
        None => (slice(&mant, 0, mant.len()), Vec::new()),
    };
    proof {
        assert(point_split(mant@) == (ip@, fp@)) by {
            match find_from(mant@, seq!['.'], 0) {
                Some(k) => {
                    assert(ip@ =~= mant@.take(k));
                    assert(fp@ =~= mant@.skip(k + 1));
                },
                None => {
                    assert(ip@ =~= mant@);
                    assert(fp@ =~= Seq::<char>::empty());
                },
            }
        }
    }
    if ip.len() + fp.len() == 0 || !all_digits_exec(&ip) || !all_digits_exec(&fp) {
        return None;
    }
    let (eneg, ev, esat) = match &ex {
        None => (false, 0u128, false),
        Some(t) => {
            let (en, ed) = split_sign(t);
            if ed.len() == 0 || !all_digits_exec(&ed) {
                return None;
            }
            let (v, sat) = digits_sat(&ed);
            (en, v, sat)
        },
    };
    let mut digits = ip.clone();
    push_all(&mut digits, &fp);
    let fl = fp.len() as i128;
    let big: i128 = 0x1_0000_0000_0000_0000_0000;
    let mag: i128 = if esat {
        big
    } else {
        ev as i128
    };
    let scale = if eneg {
        -mag - fl
    } else {
        mag - fl
    };
    proof {
        assert(digits@ =~= ip@ + fp@);
        assert(all_digits(digits@)) by {
            assert forall|j: int| 0 <= j < digits@.len() implies is_ascii_digit(#[trigger] digits@[j]) by {
                if j < ip@.len() {
                    assert(digits@[j] == ip@[j]);
                } else {
                    assert(digits@[j] == fp@[j - ip@.len()]);
                }
            }
        }
    }
    Some(Decimal { neg, digits, scale })
}

pub proof fn lemma_same_scale_cut(d: Seq<char>, e: int, c: int, shift: int)
    requires
        same_scale(e, c),
        d.len() <= u64::MAX,
        -3 <= shift <= 0,
    ensures
        (cut_milli(d, e + shift) > u64::MAX && cut_milli(d, c + shift) > u64::MAX) || (cut_milli(
            d,
            e + shift,
        ) == cut_milli(d, c + shift) && cut_exact(d, e + shift) == cut_exact(d, c + shift)),
        e != c ==> (cut_milli(d, e + shift) > u64::MAX && cut_milli(d, c + shift) > u64::MAX) || (
        cut_milli(d, e + shift) == 0 && cut_milli(d, c + shift) == 0),
{
    if e == c {
    } else if e >= big_scale() / 2 {
        let p1 = pow10((e + shift + 3) as nat);
        let p2 = pow10((c + shift + 3) as nat);
        let dv = digits_value(d);
        if dv == 0 {
            assert(dv * p1 == 0 && dv * p2 == 0) by (nonlinear_arith)
                requires dv == 0;
        } else {
            lemma_pow10_big((e + shift + 3) as nat);
            lemma_pow10_big((c + shift + 3) as nat);
            assert(dv * p1 > u64::MAX) by (nonlinear_arith)
                requires dv >= 1, p1 > u64::MAX;
            assert(dv * p2 > u64::MAX) by (nonlinear_arith)
                requires dv >= 1, p2 > u64::MAX;
        }
    } else {
        assert(e <= -big_scale() / 2 && c <= -big_scale() / 2);
        assert(cut_milli(d, e + shift) == 0);
        assert(cut_milli(d, c + shift) == 0);
        assert(cut_exact(d, e + shift) == cut_exact(d, c + shift)) by {
            if cut_exact(d, e + shift) {
                assert forall|i: int| d.len() + c + shift + 3 <= i < d.len() && 0 <= i implies #[trigger] d[i]
                    == '0' by {
                    assert(d.len() + e + shift + 3 <= i);
                }
            }
            if cut_exact(d, c + shift) {
                assert forall|i: int| d.len() + e + shift + 3 <= i < d.len() && 0 <= i implies #[trigger] d[i]
                    == '0' by {
                    assert(d.len() + c + shift + 3 <= i);
                }
            }
        }
    }
}

/// The magnitude of digits·10^e in thousandths, cut toward zero, and
/// whether nothing was cut off; `None` where it exceeds `u64::MAX`.
pub fn cut(d: &Vec<char>, e: i128) -> (r: Option<(u64, bool)>)
    requires
        all_digits(d@),
        -4 * big_scale() <= e <= 4 * big_scale(),
    ensures
        match r {
            Some((m, x)) => m == cut_milli(d@, e as int) && x == cut_exact(d@, e as int),
            None => cut_milli(d@, e as int) > u64::MAX,
        },
{
    let s = e + 3;
    if s >= 0 {
        assert(d@.skip(0) =~= d@);
        let v0 = match digits_upto(d, 0, u64::MAX) {
            Some(v) => v,
            None => {
                proof {
                    lemma_pow10_pos(s as nat);
                    let dv = digits_value(d@);
                    let p = pow10(s as nat);
                    assert(dv * p > u64::MAX) by (nonlinear_arith)
                        requires dv > u64::MAX, p >= 1;
                }
                return None;
            },
        };
        assert(pow10(0) == 1);
        assert(v0 == digits_value(d@) * pow10(0));
        if v0 == 0 {
            proof {
                let p = pow10(s as nat);
                assert(0 * p == 0) by (nonlinear_arith);
            }
            return Some((0, true));
        }
        let mut v = v0;
        let mut j: i128 = 0;
        while j < s
            invariant
                0 <= j <= s,
                v >= 1,
                v == digits_value(d@) * pow10(j as nat),
                s == e + 3,
            decreases s - j,
        {
            if v > u64::MAX / 10 {
                proof {
                    let dv = digits_value(d@);
                    let pj = pow10(j as nat);
                    lemma_pow10_split(j as nat, (s - j) as nat);
                    let pr = pow10((s - j) as nat);
                    assert(pr >= 10) by {
                        lemma_pow10_pos((s - j - 1) as nat);
                    }
                    assert(dv * pow10(s as nat) == v * pr) by (nonlinear_arith)
                        requires pow10(s as nat) == pj * pr, v == dv * pj;
                    assert(v * pr > u64::MAX) by (nonlinear_arith)
                        requires v > u64::MAX / 10, pr >= 10;
                }
                return None;
            }
            proof {
                let dv = digits_value(d@);
                let pj = pow10(j as nat);
                assert(pow10((j + 1) as nat) == 10 * pj);
                assert(v * 10 == dv * (10 * pj)) by (nonlinear_arith)
                    requires v == dv * pj;
            }
            v = v * 10;
            j = j + 1;
        }
        Some((v, true))
    } else {
        let k = -s;
        let len = d.len() as i128;
        if k >= len {
            let z = zeros_from(d, 0);
            Some((0, z))
        } else {
            let n = (len - k) as usize;
            let pre = slice(d, 0, n);
            assert(pre@ =~= d@.take(d@.len() + e + 3));
            assert(pre@.skip(0) =~= pre@);
            assert(all_digits(pre@)) by {
                assert forall|j: int| 0 <= j < pre@.len() implies is_ascii_digit(#[trigger] pre@[j]) by {
                    assert(pre@[j] == d@[j]);
                }
            }
            let z = zeros_from(d, n);
            match digits_upto(&pre, 0, u64::MAX) {
                Some(v) => Some((v, z)),
                None => None,
            }
        }
    }
}

proof fn lemma_pow10_split(a: nat, b: nat)
    ensures
        pow10(a + b) == pow10(a) * pow10(b),
    decreases a,
{
    if a > 0 {
        let a1 = (a - 1) as nat;
        lemma_pow10_split(a1, b);
        let x = pow10(a1);
        let y = pow10(b);
        assert(pow10(a) == 10 * x);
        assert(((a + b) - 1) as nat == a1 + b);
        assert(pow10(a + b) == 10 * pow10(a1 + b));
        assert(10 * (x * y) == (10 * x) * y) by (nonlinear_arith);
    } else {
        assert(pow10(a) == 1);
        assert(a + b == b);
    }
}

/// A number in finite float notation, in thousandths (cut toward zero):
/// `None` where the text is no such number or the magnitude exceeds
/// `i64::MAX`.
pub fn parse_milli(s: &Vec<char>) -> (r: Option<i64>)
    ensures
        match r {
            Some(v) => decimal_milli(s@) == Some(v as int) && abs(v as int) <= milli_limit(),
            None => decimal_milli(s@) is None || abs(decimal_milli(s@).unwrap()) > milli_limit(),
        },
{
    match parse_decimal(s) {
        None => None,
        Some(x) => {
            proof {
                let e = decimal_parts(s@).unwrap().2;
                assert(x.digits@.len() == x.digits.len());
                lemma_same_scale_cut(x.digits@, e, x.scale as int, 0);
            }
            match cut(&x.digits, x.scale) {
                None => None,
                Some((m, _)) => {
                    if m > 0x7fff_ffff_ffff_ffff {
                        None
                    } else if x.neg {
                        Some(-(m as i64))
                    } else {
                        Some(m as i64)
                    }
                },
            }
        },
    }
}

/// The digit at position `i` of `d`, 0 outside it.
pub open spec fn digit_at(d: Seq<char>, i: int) -> int {
    if 0 <= i < d.len() {
        digit_value(d[i])
    } else {
        0
    }
}

/// One more decimal place: the value in ten-thousandths, cut toward zero,
/// is ten times the thousandths plus the next digit.
proof fn lemma_cut_step(d: Seq<char>, e: int)
    requires
        all_digits(d),
    ensures
        cut_milli(d, e + 1) == 10 * cut_milli(d, e) + digit_at(d, d.len() + e + 3),
        0 <= digit_at(d, d.len() + e + 3) <= 9,
{
    let len = d.len() as int;
    let n = len + e + 3;
    if 0 <= n < len {
        assert(is_ascii_digit(d[n]));
    }
    if e + 3 >= 0 {
        let p = pow10((e + 3) as nat);
        assert(pow10((e + 4) as nat) == 10 * p);
        let dv = digits_value(d);
        assert(dv * (10 * p) == 10 * (dv * p)) by (nonlinear_arith);
        assert(cut_milli(d, e + 1) == dv * (10 * p));
        assert(cut_milli(d, e) == dv * p);
        assert(digit_at(d, n) == 0);
    } else if e + 3 == -1 {
        assert(pow10(0) == 1);
        assert(cut_milli(d, e + 1) == digits_value(d) * pow10(0));
        if len >= 1 {
            lemma_digits_value_step(d, len - 1);
            assert(d.take(len) =~= d);
            assert(cut_milli(d, e) == digits_value(d.take(len - 1)));
        } else {
            assert(cut_milli(d, e) == 0);
            assert(digits_value(d) == 0);
        }
    } else if n >= 0 {
        lemma_digits_value_step(d, n);
        assert(d.take(0) =~= Seq::<char>::empty());
        assert(cut_milli(d, e + 1) == digits_value(d.take(n + 1)));
        if n == 0 {
            assert(cut_milli(d, e) == 0);
            assert(digits_value(d.take(0)) == 0);
        } else {
            assert(cut_milli(d, e) == digits_value(d.take(n)));
        }
    } else {
        assert(cut_milli(d, e + 1) == 0);
        assert(cut_milli(d, e) == 0);
    }
}

/// More decimal places refine the thousandths: the value in units of
/// 10^-(3+s), cut toward zero, lies within the 10^s such units that the
/// thousandths span.
pub proof fn lemma_cut_refine(d: Seq<char>, e: int, s: nat)
    requires
        all_digits(d),
    ensures
        cut_milli(d, e) * pow10(s) <= cut_milli(d, e + s),
        cut_milli(d, e + s) < (cut_milli(d, e) + 1) * pow10(s),
    decreases s,
{
    if s == 0 {
        assert(pow10(0) == 1);
    } else {
        let s1 = (s - 1) as nat;
        lemma_cut_refine(d, e, s1);
        lemma_cut_step(d, e + s1);
        let c = cut_milli(d, e);
        let p = pow10(s1);
        assert(pow10(s) == 10 * p);
        assert(e + s1 + 1 == e + s);
        assert(c * (10 * p) == 10 * (c * p)) by (nonlinear_arith);
        assert((c + 1) * (10 * p) == 10 * ((c + 1) * p)) by (nonlinear_arith);
    }
}

pub open spec fn pow5(n: nat) -> nat
    decreases n,
{
    if n == 0 {
        1
    } else {
        5 * pow5((n - 1) as nat)
    }
}

proof fn lemma_pow5_small(k: nat)
    requires
        k >= 10,
    ensures
        pow5(k) * 1000 < pow10(k),
    decreases k,
{
    if k == 10 {
        reveal_with_fuel(pow5, 11);
        reveal_with_fuel(pow10, 11);
    } else {
        lemma_pow5_small((k - 1) as nat);
        assert(pow5(k) == 5 * pow5((k - 1) as nat));
        assert(pow10(k) == 10 * pow10((k - 1) as nat));
    }
}

/// `digits·10^e` is at most `a + 2^-k`. As `2^-k = 5^k / 10^k`, this is
/// the value in units of 10^-k, cut toward zero, against `a·10^k + 5^k`,
/// with equality only where nothing was cut off.
pub open spec fn at_most(d: Seq<char>, e: int, a: nat, k: nat) -> bool {
    let f = cut_milli(d, e + k - 3);
    let n = a * pow10(k) + pow5(k);
    f < n || (f == n && cut_exact(d, e + k - 3))
}

/// The thousandths settle `at_most` unless they are exactly `a`.
pub proof fn lemma_at_most_by_thousandths(d: Seq<char>, e: int, a: nat, k: nat)
    requires
        all_digits(d),
        k >= 10,
    ensures
        cut_milli(d, e) < a * 1000 ==> at_most(d, e, a, k),
        cut_milli(d, e) > a * 1000 ==> !at_most(d, e, a, k),
{
    let s = (k - 3) as nat;
    lemma_cut_refine(d, e, s);
    lemma_pow10_split(3, s);
    reveal_with_fuel(pow10, 4);
    assert(pow10(3) == 1000);
    assert(3 + s == k);
    lemma_pow5_small(k);
    let c = cut_milli(d, e);
    let p = pow10(s);
    let f = cut_milli(d, e + s);
    assert(e + s == e + k - 3);
    assert(pow10(k) == 1000 * p);
    let five = pow5(k);
    assert(five * 1000 < 1000 * p);
    if c < a * 1000 {
        assert((c + 1) * p <= (a * 1000) * p) by (nonlinear_arith)
            requires c + 1 <= a * 1000;
        assert(a * (1000 * p) == (a * 1000) * p) by (nonlinear_arith);
    }
    if c > a * 1000 {
        assert(c * p >= (a * 1000 + 1) * p) by (nonlinear_arith)
            requires c >= a * 1000 + 1;
        assert((a * 1000 + 1) * p == a * (1000 * p) + p) by (nonlinear_arith);
    }
}

/// Two powers of ten that scale a number alike (`same_scale`) give the
/// same answer to `at_most`.
pub proof fn lemma_same_scale_at_most(d: Seq<char>, e: int, c: int, a: nat, k: nat)
    requires
        same_scale(e, c),
        all_digits(d),
        d.len() <= u64::MAX,
        1 <= a <= 1_000_000,
        k >= 10,
    ensures
        at_most(d, e, a, k) == at_most(d, c, a, k),
{
    if e != c {
        lemma_same_scale_cut(d, e, c, 0);
        lemma_at_most_by_thousandths(d, e, a, k);
        lemma_at_most_by_thousandths(d, c, a, k);
    }
}

/// Whether `digits·10^e` is a whole number of units of 10^-k.
fn exact_at(d: &Vec<char>, e: i128, k: i128) -> (b: bool)
    requires
        -8 * big_scale() <= e <= 8 * big_scale(),
        0 <= k <= 64,
    ensures
        b == cut_exact(d@, e + k - 3),
{
    if e + k >= 0 {
        true
    } else {
        let lo = d.len() as i128 + e + k;
        let start: usize = if lo < 0 {
            0
        } else {
            lo as usize
        };
        zeros_from(d, start)
    }
}

/// Decides `at_most(d, e, a, k)`, given `five == 5^k`.
pub fn at_most_exec(d: &Vec<char>, e: i128, a: u64, k: u32, five: u128) -> (b: bool)
    requires
        all_digits(d@),
        -4 * big_scale() <= e <= 4 * big_scale(),
        1 <= a <= 1_000_000,
        10 <= k <= 52,
        five == pow5(k as nat),
    ensures
        b == at_most(d@, e as int, a as nat, k as nat),
{
    proof {
        lemma_at_most_by_thousandths(d@, e as int, a as nat, k as nat);
    }
    let cm = cut(d, e);
    let m = match cm {
        None => {
            return false;
        },
        Some((m, _)) => m,
    };
    assert(m == cut_milli(d@, e as int));
    let whole: u64 = a * 1000;
    if m < whole {
        return true;
    }
    if m > whole {
        return false;
    }
    proof {
        assert(five <= 10_000_000_000_000_000_000_000_000_000_000_000_000) by {
            lemma_pow5_bound(k as nat);
        }
        assert(pow10(0) == 1);
        assert(e + 0 == e);
        assert(a * 1000 * pow10(0) == a * 1000);
    }
    let len = d.len() as i128;
    let steps: i128 = k as i128 - 3;
    let mut t: u128 = 0;
    let mut s: i128 = 0;
    while s < steps
        invariant
            0 <= s <= steps,
            steps == k - 3,
            len == d@.len(),
            len <= usize::MAX,
            all_digits(d@),
            -4 * big_scale() <= e <= 4 * big_scale(),
            1 <= a <= 1_000_000,
            10 <= k <= 52,
            five == pow5(k as nat),
            five <= 10_000_000_000_000_000_000_000_000_000_000_000_000,
            t <= five,
            t == cut_milli(d@, e + s) - a * 1000 * pow10(s as nat),
        decreases steps - s,
    {
        let idx = len + e + 3 + s;
        let dg: u128 = if 0 <= idx && idx < len {
            let ch = d[idx as usize];
            proof {
                assert(ch == d@[idx as int]);
                assert(is_ascii_digit(ch));
            }
            (ch as u32 - 48) as u128
        } else {
            0
        };
        proof {
            lemma_cut_step(d@, e + s);
            assert(dg == digit_at(d@, d@.len() + (e + s) + 3));
            let p = pow10(s as nat);
            assert(pow10((s + 1) as nat) == 10 * p);
            assert(a * 1000 * (10 * p) == 10 * (a * 1000 * p)) by (nonlinear_arith);
        }
        t = t * 10 + dg;
        s = s + 1;
        if t > five {
            proof {
                let rest = (steps - s) as nat;
                lemma_cut_refine(d@, e + s, rest);
                lemma_pow10_split(s as nat, rest);
                lemma_pow10_split(3, (s + rest) as nat);
                reveal_with_fuel(pow10, 4);
                lemma_pow10_pos(rest);
                let ps = pow10(s as nat);
                let pr = pow10(rest);
                let c = cut_milli(d@, e + s);
                assert(e + s + rest == e + k - 3);
                assert(c == a * 1000 * ps + t);
                assert(c * pr == a * 1000 * (ps * pr) + t * pr) by (nonlinear_arith)
                    requires c == a * 1000 * ps + t;
                assert(t * pr >= t) by (nonlinear_arith)
                    requires pr >= 1, t >= 0;
                assert(pow10(k as nat) == 1000 * (ps * pr));
                assert(a * pow10(k as nat) == a * 1000 * (ps * pr)) by (nonlinear_arith)
                    requires pow10(k as nat) == 1000 * (ps * pr);
            }
            return false;
        }
    }
    let exact = exact_at(d, e, k as i128);
    proof {
        lemma_pow10_split(3, (k - 3) as nat);
        reveal_with_fuel(pow10, 4);
        let p = pow10((k - 3) as nat);
        assert(pow10(k as nat) == 1000 * p);
        assert(a * pow10(k as nat) == a * 1000 * p) by (nonlinear_arith)
            requires pow10(k as nat) == 1000 * p;
    }
    t < five || (t == five && exact)
}

proof fn lemma_zero_digits(d: Seq<char>)
    requires
        forall|i: int| 0 <= i < d.len() ==> #[trigger] d[i] == '0',
    ensures
        digits_value(d) == 0,
    decreases d.len(),
{
    if d.len() > 0 {
        lemma_zero_digits(d.drop_last());
    }
}

proof fn lemma_zero_digits_cut(d: Seq<char>, e: int)
    requires
        forall|i: int| 0 <= i < d.len() ==> #[trigger] d[i] == '0',
    ensures
        cut_milli(d, e) == 0,
{
    lemma_zero_digits(d);
    if e + 3 >= 0 {
        let p = pow10((e + 3) as nat);
        assert(0 * p == 0) by (nonlinear_arith);
    } else if -(e + 3) < d.len() {
        let t = d.take(d.len() + e + 3);
        assert forall|i: int| 0 <= i < t.len() implies #[trigger] t[i] == '0' by {
            assert(t[i] == d[i]);
        }
        lemma_zero_digits(t);
    }
}

/// `u` as a percentage of `t` (each a sign, digits and a power of ten), in
/// thousandths cut toward zero, the magnitude held to `i64::MAX`: the value
/// `digits(u)·10^(e(u) - e(t) + 5) / digits(t)`.
pub open spec fn ratio_milli(u: (bool, Seq<char>, int), t: (bool, Seq<char>, int)) -> int {
    let q = cut_milli(u.1, u.2 - t.2 + 2) / digits_value(t.1);
    signed(
        u.0,
        if q > i64::MAX {
            i64::MAX as nat
        } else {
            q
        },
    )
}

/// A number that can divide: positive, with digits worth at most 2^80.
pub open spec fn usable_divisor(t: (bool, Seq<char>, int)) -> bool {
    !t.0 && 0 < digits_value(t.1) <= big_scale()
}

pub open spec fn decimal_view(x: Decimal) -> (bool, Seq<char>, int) {
    (x.neg, x.digits@, x.scale as int)
}

/// The digits' value of a divisor, where `usable_divisor` holds.
pub fn divisor_value(t: &Decimal) -> (r: Option<u128>)
    requires
        all_digits(t.digits@),
    ensures
        match r {
            Some(b) => usable_divisor(decimal_view(*t)) && b == digits_value(t.digits@),
            None => !usable_divisor(decimal_view(*t)),
        },
{
    if t.neg {
        return None;
    }
    let (v, sat) = digits_sat(&t.digits);
    if sat || v == 0 {
        None
    } else {
        Some(v)
    }
}

/// `ratio_milli` of two parsed numbers, by long division, given the
/// divisor's digits' value `b`.
pub fn ratio_exec(u: &Decimal, t: &Decimal, b: u128) -> (r: i64)
    requires
        all_digits(u.digits@),
        usable_divisor(decimal_view(*t)),
        b == digits_value(t.digits@),
        -2 * big_scale() <= u.scale <= 2 * big_scale(),
        -2 * big_scale() <= t.scale <= 2 * big_scale(),
    ensures
        r == ratio_milli(decimal_view(*u), decimal_view(*t)),
{
    let p: i128 = u.scale - t.scale + 5;
    let ghost d = u.digits@;
    let ghost pe: int = u.scale - t.scale + 2;
    if zeros_from(&u.digits, 0) {
        proof {
            lemma_zero_digits_cut(d, pe);
        }
        return 0;
    }
    let len = u.digits.len() as i128;
    let total: i128 = len + p;
    let qmax: u128 = 0x7fff_ffff_ffff_ffff;
    let mut q: u128 = 0;
    let mut rem: u128 = 0;
    let mut j: i128 = 0;
    proof {
        assert(cut_milli(d, 0 - len - 3) == 0);
    }
    while j < total
        invariant
            0 <= j,
            total >= 0 ==> j <= total,
            total <= 0 ==> j == 0,
            total == len + p,
            b == digits_value(t.digits@),
            len == d.len(),
            len <= usize::MAX,
            d == u.digits@,
            all_digits(d),
            0 < b <= big_scale(),
            qmax == i64::MAX,
            rem < b,
            q <= qmax,
            cut_milli(d, j - len - 3) == q * b + rem,
            pe == p - 3,
            p == u.scale - t.scale + 5,
        decreases total - j,
    {
        let dg: u128 = if j < len {
            let ch = u.digits[j as usize];
            proof {
                assert(ch == d[j as int]);
                assert(is_ascii_digit(ch));
            }
            (ch as u32 - 48) as u128
        } else {
            0
        };
        proof {
            lemma_cut_step(d, j - len - 3);
            assert(d.len() + (j - len - 3) + 3 == j);
            assert(dg == digit_at(d, j as int));
            assert(j - len - 3 + 1 == (j + 1) - len - 3);
        }
        let x = rem * 10 + dg;
        let q2 = q * 10 + x / b;
        let r2 = x % b;
        proof {
            assert(x == (x / b) * b + r2) by (nonlinear_arith)
                requires b > 0, r2 == x % b;
            assert(10 * (q * b + rem) + dg == (q * 10 + x / b) * b + r2) by (nonlinear_arith)
                requires x == rem * 10 + dg, x == (x / b) * b + r2;
        }
        j = j + 1;
        if q2 > qmax {
            proof {
                let rest = (total - j) as nat;
                lemma_cut_refine(d, j - len - 3, rest);
                lemma_pow10_pos(rest);
                let v = cut_milli(d, j - len - 3);
                let pr = pow10(rest);
                assert(j - len - 3 + rest == pe);
                assert(v * pr >= v) by (nonlinear_arith)
                    requires pr >= 1, v >= 0;
                let f = cut_milli(d, pe);
                assert(f >= (qmax + 1) * b) by (nonlinear_arith)
                    requires f >= v, v == q2 * b + r2, q2 >= qmax + 1, r2 >= 0, b > 0;
                assert(f / (b as nat) >= qmax + 1) by (nonlinear_arith)
                    requires f >= (qmax + 1) * b, b > 0;
            }
            if u.neg {
                return -0x7fff_ffff_ffff_ffff;
            } else {
                return 0x7fff_ffff_ffff_ffff;
            }
        }
        q = q2;
        rem = r2;
    }
    proof {
        if total <= 0 {
            assert(cut_milli(d, pe) == 0);
            assert(cut_milli(d, 0 - len - 3) == 0);
            assert(q == 0 && rem == 0) by (nonlinear_arith)
                requires q * b + rem == 0, b > 0, q >= 0, rem >= 0;
        } else {
            assert(j - len - 3 == pe);
        }
        let f = cut_milli(d, pe);
        assert(f / (b as nat) == q) by (nonlinear_arith)
            requires f == q * b + rem, rem < b, 0 <= rem, b > 0, q >= 0;
    }
    if u.neg {
        -(q as i64)
    } else {
        q as i64
    }
}

proof fn lemma_pow5_bound(k: nat)
    requires
        k <= 52,
    ensures
        pow5(k) <= 10_000_000_000_000_000_000_000_000_000_000_000_000,
{
    lemma_pow5_mono(k, 52);
    reveal_with_fuel(pow5, 53);
    assert(pow5(52) == 2220446049250313080847263336181640625);
}

proof fn lemma_pow5_mono(i: nat, j: nat)
    requires
        i <= j,
    ensures
        pow5(i) <= pow5(j),
    decreases j - i,
{
    if i < j {
        lemma_pow5_mono(i, (j - 1) as nat);
    }
}

pub open spec fn abs(x: int) -> int {
    if x < 0 {
        -x
    } else {
        x
    }
}

/// The ASCII digit of a value below ten.
pub open spec fn digit_char(d: int) -> char {
    (d + '0' as u32) as char
}

/// The decimal digits of `n`, without leading zeros (`0` for zero).
pub open spec fn dec_text(n: nat) -> Seq<char>
    decreases n,
{
    if n < 10 {
        seq![digit_char(n as int)]
    } else {
        dec_text(n / 10).push(digit_char((n % 10) as int))
    }
}

fn digit_char_exec(d: u64) -> (c: char)
    requires
        d < 10,
    ensures
        c == digit_char(d as int),
{
    let c = if d == 0 { '0' } else if d == 1 { '1' } else if d == 2 { '2' } else if d == 3 {
        '3'
    } else if d == 4 { '4' } else if d == 5 { '5' } else if d == 6 { '6' } else if d == 7 {
        '7'
    } else if d == 8 { '8' } else { '9' };
    assert(c == digit_char(d as int)) by {
        assert((0 + '0' as u32) as char == '0');
        assert((1 + '0' as u32) as char == '1');
        assert((2 + '0' as u32) as char == '2');
        assert((3 + '0' as u32) as char == '3');
        assert((4 + '0' as u32) as char == '4');
        assert((5 + '0' as u32) as char == '5');
        assert((6 + '0' as u32) as char == '6');
        assert((7 + '0' as u32) as char == '7');
        assert((8 + '0' as u32) as char == '8');
        assert((9 + '0' as u32) as char == '9');
    }
    c
}

/// Appends the decimal digits of `n` to `out`.
pub fn push_dec(out: &mut Vec<char>, n: u64)
    ensures
        final(out)@ == old(out)@ + dec_text(n as nat),
    decreases n,
{
    if n >= 10 {
        push_dec(out, n / 10);
    }
    out.push(digit_char_exec(n % 10));
    proof {
        if n < 10 {
            assert(old(out)@ + dec_text(n as nat) =~= old(out)@.push(digit_char(n as int)));
        } else {
            assert(old(out)@ + dec_text(n as nat) =~= (old(out)@ + dec_text((n / 10) as nat)).push(
                digit_char((n % 10) as int),
            ));
        }
    }
}

/// `n / d` rounded to the nearest whole number, a tie going to the even
/// one.
pub open spec fn round_half_even(n: nat, d: nat) -> nat {
    let q = n / d;
    let r = n % d;
    if 2 * r > d || (2 * r == d && q % 2 == 1) {
        q + 1
    } else {
        q
    }
}

/// The number of tenths nearest to `|m|` thousandths.
pub open spec fn rounded_tenths(m: int) -> nat {
    round_half_even(abs(m) as nat, 100)
}

/// A value in thousandths printed with one decimal, rounded half to even
/// on the thousandths: a `-` for a negative value, the whole part, a point
/// and the tenth.
pub open spec fn tenths_text(m: int) -> Seq<char> {
    let t = rounded_tenths(m);
    (if m < 0 {
        seq!['-']
    } else {
        Seq::empty()
    }) + dec_text(t / 10) + seq!['.', digit_char((t % 10) as int)]
}

/// A value in thousandths printed with no decimals, rounded half to even
/// on the thousandths: a `-` for a negative value and the nearest whole
/// number.
pub open spec fn whole_text(m: int) -> Seq<char> {
    (if m < 0 {
        seq!['-']
    } else {
        Seq::empty()
    }) + dec_text(round_half_even(abs(m) as nat, 1000))
}

fn round_half_even_exec(n: u64, d: u64) -> (r: u64)
    requires
        d == 100 || d == 1000,
    ensures
        r == round_half_even(n as nat, d as nat),
{
    let q = n / d;
    let rem = n % d;
    if 2 * rem > d || (2 * rem == d && q % 2 == 1) {
        q + 1
    } else {
        q
    }
}

fn magnitude(m: i64) -> (r: u64)
    ensures
        r == abs(m as int),
{
    if m < 0 {
        ((-(m + 1)) as u64) + 1
    } else {
        m as u64
    }
}

/// Appends `tenths_text(m)` to `out`.
pub fn push_tenths(out: &mut Vec<char>, m: i64)
    ensures
        final(out)@ == old(out)@ + tenths_text(m as int),
{
    let a = magnitude(m);
    let t = round_half_even_exec(a, 100);
    let ghost before = out@;
    if m < 0 {
        out.push('-');
    }
    push_dec(out, t / 10);
    out.push('.');
    out.push(digit_char_exec(t % 10));
    assert(out@ =~= before + tenths_text(m as int));
}

/// Appends `whole_text(m)` to `out`.
pub fn push_whole(out: &mut Vec<char>, m: i64)
    ensures
        final(out)@ == old(out)@ + whole_text(m as int),
{
    let a = magnitude(m);
    let w = round_half_even_exec(a, 1000);
    let ghost before = out@;
    if m < 0 {
        out.push('-');
    }
    push_dec(out, w);
    assert(out@ =~= before + whole_text(m as int));
}


/// Integer division rounding toward zero, as Rust's `/` on signed integers.
pub open spec fn trunc_div(a: int, b: int) -> int {
    if a >= 0 {
        a / b
    } else {
        -((-a) / b)
    }
}

/// `a / b` rounding toward zero.
pub fn div_trunc(a: i64, b: i64) -> (r: i64)
    requires
        b > 0,
        a > i64::MIN,
    ensures
        r == trunc_div(a as int, b as int),
{
    if a >= 0 {
        ((a as u64) / (b as u64)) as i64
    } else {
        let m = (-a) as u64;
        -(((m / (b as u64))) as i64)
    }
}

} // verus!
