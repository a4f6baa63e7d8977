//! Temperatures in text: the readings of `sensors`, `nvme smart-log`,
//! `smartctl` and the kernel's thermal and hwmon files.

use vstd::prelude::*;
use crate::number::{
    abs, at_most, at_most_exec, cut, cut_milli, decimal_milli, decimal_parts, div_trunc,
    lemma_at_most_by_thousandths, lemma_cut_refine, lemma_decimal_parts_digits, lemma_pow5_values,
    lemma_same_scale_at_most, lemma_same_scale_cut, milli_limit, parse_decimal, parse_milli, pow10,
    signed, trunc_div,
};
use crate::text::{
    contains, contains_char, contains_str, eq_str, ends_with_char, is_ascii_digit, is_ascii_digit_char,
    lemma_lines_append, lemma_lines_one, lines, strip_cr, lines_exec, lowercase, starts_with_str, str_chars, to_lowercase,
    trim, trim_end_chars, trim_end_chars_exec, trim_exec, trim_start, trim_start_exec, views,
    words, words_exec,
};

verus! {

/// The first defined value of `f` over `s`, in order.
pub open spec fn first_some<T, R>(s: Seq<T>, f: spec_fn(T) -> Option<R>) -> Option<R>
    decreases s.len(),
{
    if s.len() == 0 {
        None
    } else {
        match f(s[0]) {
            Some(v) => Some(v),
            None => first_some(s.drop_first(), f),
        }
    }
}

pub proof fn lemma_first_some_step<T, R>(s: Seq<T>, f: spec_fn(T) -> Option<R>, i: int)
    requires
        0 <= i < s.len(),
        f(s[i]) is None,
    ensures
        first_some(s.skip(i), f) == first_some(s.skip(i + 1), f),
{
    assert(s.skip(i).drop_first() =~= s.skip(i + 1));
}

pub proof fn lemma_first_some_hit<T, R>(s: Seq<T>, f: spec_fn(T) -> Option<R>, i: int)
    requires
        0 <= i < s.len(),
        f(s[i]) is Some,
    ensures
        first_some(s.skip(i), f) == f(s[i]),
{
    assert(s.skip(i)[0] == s[i]);
}

/// What follows the first hit does not matter.
pub proof fn lemma_first_some_append<T, R>(x: Seq<T>, y: Seq<T>, f: spec_fn(T) -> Option<R>)
    requires
        first_some(x, f) is Some,
    ensures
        first_some(x + y, f) == first_some(x, f),
    decreases x.len(),
{
    assert((x + y)[0] == x[0]);
    if f(x[0]) is None {
        assert((x + y).drop_first() =~= x.drop_first() + y);
        lemma_first_some_append(x.drop_first(), y, f);
    }
}

/// What comes before the first hit, giving none, does not matter.
pub proof fn lemma_first_some_prepend<T, R>(x: Seq<T>, y: Seq<T>, f: spec_fn(T) -> Option<R>)
    requires
        first_some(x, f) is None,
    ensures
        first_some(x + y, f) == first_some(y, f),
    decreases x.len(),
{
    if x.len() == 0 {
        assert(x + y =~= y);
    } else {
        assert((x + y)[0] == x[0]);
        assert((x + y).drop_first() =~= x.drop_first() + y);
        lemma_first_some_prepend(x.drop_first(), y, f);
    }
}

/// An optional machine integer as an optional number.
pub open spec fn opt_int(o: Option<i64>) -> Option<int> {
    match o {
        Some(v) => Some(v as int),
        None => None,
    }
}

/// An optional string as an optional character sequence.
pub open spec fn opt_view(o: Option<String>) -> Option<Seq<char>> {
    match o {
        Some(s) => Some(s@),
        None => None,
    }
}

/// The plausible range of a temperature reading: -20 to 150 degrees
/// Celsius, in thousandths.
pub open spec fn temp_in_range(m: int) -> bool {
    -20000 <= m <= 150000
}

/// A number whose nearest `f32` lies from -20 to 150: `str::parse::<f32>`
/// rounds to the nearest `f32`, ties to the even one. Next to 150 the
/// `f32` values are 2^-16 apart and next to 20 they are 2^-19 apart, and 150
/// and 20 are the even neighbours, so the nearest `f32` is at most 150
/// exactly when the value is at most 150 + 2^-17, and at least -20 exactly
/// when the value is at least -(20 + 2^-20).
pub open spec fn f32_plausible(n: bool, d: Seq<char>, e: int) -> bool {
    if n {
        at_most(d, e, 20, 20)
    } else {
        at_most(d, e, 150, 17)
    }
}

/// A number whose nearest `f64` lies from -20 to 150: as for `f32`, with
/// the `f64` spacing of 2^-45 next to 150 and 2^-48 next to 20.
pub open spec fn f64_plausible(n: bool, d: Seq<char>, e: int) -> bool {
    if n {
        at_most(d, e, 20, 49)
    } else {
        at_most(d, e, 150, 46)
    }
}

/// The temperature that a number in text denotes, in thousandths (cut
/// toward zero), when the `f32` it parses to lies from -20 to 150 degrees.
pub open spec fn plausible_temp(s: Seq<char>) -> Option<int> {
    match decimal_parts(s) {
        Some((n, d, e)) => if f32_plausible(n, d, e) {
            Some(signed(n, cut_milli(d, e)))
        } else {
            None
        },
        None => None,
    }
}

proof fn lemma_plausible_in_range(s: Seq<char>)
    ensures
        plausible_temp(s) matches Some(v) ==> temp_in_range(v),
{
    lemma_decimal_parts_digits(s);
    if let Some((n, d, e)) = decimal_parts(s) {
        lemma_at_most_by_thousandths(d, e, 20, 20);
        lemma_at_most_by_thousandths(d, e, 150, 17);
    }
}

/// `m` thousandths with the sign `-` when `neg`.
fn signed_exec(neg: bool, m: u64) -> (r: i64)
    requires
        m <= i64::MAX,
    ensures
        r == signed(neg, m as nat),
{
    if neg {
        -(m as i64)
    } else {
        m as i64
    }
}

/// The temperature that a number in text denotes, when plausible.
fn plausible_temp_exec(s: &Vec<char>) -> (r: Option<i64>)
    ensures
        opt_int(r) == plausible_temp(s@),
{
    match parse_decimal(s) {
        None => None,
        Some(x) => {
            proof {
                let e = decimal_parts(s@).unwrap().2;
                let c = x.scale as int;
                assert(x.digits@.len() == x.digits.len());
                lemma_same_scale_cut(x.digits@, e, c, 0);
                lemma_same_scale_at_most(x.digits@, e, c, 20, 20);
                lemma_same_scale_at_most(x.digits@, e, c, 150, 17);
                lemma_at_most_by_thousandths(x.digits@, c, 20, 20);
                lemma_at_most_by_thousandths(x.digits@, c, 150, 17);
                lemma_pow5_values();
            }
            let ok = if x.neg {
                at_most_exec(&x.digits, x.scale, 20, 20, 95367431640625)
            } else {
                at_most_exec(&x.digits, x.scale, 150, 17, 762939453125)
            };
            if !ok {
                return None;
            }
            match cut(&x.digits, x.scale) {
                Some((m, _)) => Some(signed_exec(x.neg, m)),
                None => None,
            }
        },
    }
}

/// The characters of `p` that may belong to a number: ASCII digits, `.` and `-`.
pub open spec fn numeric_part(p: Seq<char>) -> Seq<char>
    decreases p.len(),
{
    if p.len() == 0 {
        Seq::empty()
    } else {
        let rest = numeric_part(p.drop_last());
        let c = p.last();
        if is_ascii_digit(c) || c == '.' || c == '-' {
            rest.push(c)
        } else {
            rest
        }
    }
}

fn numeric_part_exec(p: &Vec<char>) -> (r: Vec<char>)
    ensures
        r@ == numeric_part(p@),
{
    let mut r: Vec<char> = Vec::new();
    let mut i: usize = 0;
    while i < p.len()
        invariant
            i <= p.len(),
            r@ == numeric_part(p@.take(i as int)),
        decreases p.len() - i,
    {
        assert(p@.take(i + 1).drop_last() =~= p@.take(i as int));
        let c = p[i];
        if is_ascii_digit_char(c) || c == '.' || c == '-' {
            r.push(c);
        }
        i = i + 1;
    }
    assert(p@.take(p.len() as int) =~= p@);
    r
}

/// A word that carries a Celsius reading: it holds `°` or ends in `C` or `c`.
pub open spec fn is_celsius_word(p: Seq<char>) -> bool {
    p.contains('°') || (p.len() > 0 && (p.last() == 'C' || p.last() == 'c'))
}

/// The plausible temperature of a word like `+43.9°C`: the number made of
/// its digits, points and minus signs.
pub open spec fn celsius_of_word(p: Seq<char>) -> Option<int> {
    if is_celsius_word(p) {
        plausible_temp(numeric_part(p))
    } else {
        None
    }
}

/// The first plausible Celsius reading among the words of `text`.
pub open spec fn celsius_value(text: Seq<char>) -> Option<int> {
    first_some(words(text), |p: Seq<char>| celsius_of_word(p))
}

fn celsius_value_exec(text: &Vec<char>) -> (r: Option<i64>)
    ensures
        opt_int(r) == celsius_value(text@),
{
    let ws = words_exec(text);
    let ghost f = |p: Seq<char>| celsius_of_word(p);
    let ghost wv = views(ws@);
    let mut i: usize = 0;
    assert(wv.skip(0) =~= wv);
    while i < ws.len()
        invariant
            i <= ws.len(),
            wv == views(ws@),
            wv == words(text@),
            f == (|p: Seq<char>| celsius_of_word(p)),
            first_some(wv, f) == first_some(wv.skip(i as int), f),
        decreases ws.len() - i,
    {
        let p = &ws[i];
        assert(wv[i as int] == p@);
        let candidate = contains_char(p, '°') || ends_with_char(p, 'C') || ends_with_char(p, 'c');
        if candidate {
            let num = numeric_part_exec(p);
            match plausible_temp_exec(&num) {
                Some(t) => {
                    proof {
                        lemma_first_some_hit(wv, f, i as int);
                    }
                    return Some(t);
                },
                None => {},
            }
        }
        proof {
            lemma_first_some_step(wv, f, i as int);
        }
        i = i + 1;
    }
    assert(wv.skip(i as int).len() == 0);
    None
}

/// Extracts a Celsius temperature from text like `Composite:  +43.9°C
/// (low = ...)`: the first word that holds `°` or ends in `C`/`c` and whose
/// digits, points and minus signs make a number whose `f32` lies from -20 to 150.
pub fn extract_celsius_value(text: &str) -> (r: Option<i64>)
    ensures
        opt_int(r) == celsius_value(text@),
{
    let t = str_chars(text);
    celsius_value_exec(&t)
}

/// The plausible temperature of a word like `43°C` or `43`: the word
/// without trailing `°`, `C` and `c`, read as a number.
pub open spec fn temp_of_word(w: Seq<char>) -> Option<int> {
    plausible_temp(trim_end_chars(w, seq!['°', 'C', 'c']))
}

/// The temperature on a line that mentions a temperature or a composite
/// reading, in any case: its first word that reads as a plausible one.
pub open spec fn temp_of_line(line: Seq<char>) -> Option<int> {
    let lower = lowercase(line);
    if contains(lower, "temperature"@) || contains(lower, "composite"@) {
        first_some(words(line), |w: Seq<char>| temp_of_word(w))
    } else {
        None
    }
}

/// The first temperature reading in the text (as `nvme smart-log` and
/// `smartctl -A` print them).
pub open spec fn text_temp(text: Seq<char>) -> Option<int> {
    first_some(lines(text), |l: Seq<char>| temp_of_line(l))
}

/// The temperature read from a tool's output is that of the first line
/// that carries one: lines appended after it change nothing, and lines
/// before it that carry none change nothing either.
pub proof fn lemma_text_temp_first_line(a: Seq<char>, b: Seq<char>)
    requires
        a.len() > 0,
        a.last() == '\n',
    ensures
        text_temp(a) is Some ==> text_temp(a + b) == text_temp(a),
        text_temp(a) is None ==> text_temp(a + b) == text_temp(b),
{
    lemma_lines_append(a, b);
    let f = |l: Seq<char>| temp_of_line(l);
    if text_temp(a) is Some {
        lemma_first_some_append(lines(a), lines(b), f);
    } else {
        lemma_first_some_prepend(lines(a), lines(b), f);
    }
}

/// A line of tool output that mentions, in any case, neither a
/// temperature nor a composite reading plays no part: inserting one
/// between the lines of the output leaves the reading unchanged.
pub proof fn lemma_text_temp_ignores_other_lines(before: Seq<char>, line: Seq<char>, after: Seq<char>)
    requires
        before.len() == 0 || before.last() == '\n',
        !line.contains('\n'),
        !contains(lowercase(strip_cr(line)), "temperature"@),
        !contains(lowercase(strip_cr(line)), "composite"@),
    ensures
        text_temp(before + line + seq!['\n'] + after) == text_temp(before + after),
{
    let l = line + seq!['\n'];
    let f = |x: Seq<char>| temp_of_line(x);
    lemma_lines_one(line);
    lemma_lines_append(l, after);
    let x = lines(before);
    let y = lines(after);
    if before.len() == 0 {
        assert(before + line + seq!['\n'] + after =~= l + after);
        assert(before + after =~= after);
        assert(x =~= Seq::<Seq<char>>::empty());
    } else {
        assert(before + line + seq!['\n'] + after =~= before + (l + after));
        lemma_lines_append(before, l + after);
        lemma_lines_append(before, after);
    }
    assert(lines(before + line + seq!['\n'] + after) =~= x + (seq![strip_cr(line)] + y));
    assert(lines(before + after) =~= x + y);
    assert(f(strip_cr(line)) is None);
    assert(seq![strip_cr(line)].drop_first() =~= Seq::<Seq<char>>::empty());
    assert(first_some(seq![strip_cr(line)], f) is None);
    lemma_first_some_prepend(seq![strip_cr(line)], y, f);
    if first_some(x, f) is Some {
        lemma_first_some_append(x, seq![strip_cr(line)] + y, f);
        lemma_first_some_append(x, y, f);
    } else {
        lemma_first_some_prepend(x, seq![strip_cr(line)] + y, f);
        lemma_first_some_prepend(x, y, f);
    }
}

fn temp_of_line_exec(line: &Vec<char>) -> (r: Option<i64>)
    ensures
        opt_int(r) == temp_of_line(line@),
{
    let lower = to_lowercase(line);
    if !contains_str(&lower, "temperature") && !contains_str(&lower, "composite") {
        return None;
    }
    let ws = words_exec(line);
    let ghost f = |w: Seq<char>| temp_of_word(w);
    let ghost wv = views(ws@);
    let trail = str_chars("°Cc");
    proof {
        reveal_strlit("°Cc");
        assert(trail@ =~= seq!['°', 'C', 'c']);
    }
    let mut i: usize = 0;
    assert(wv.skip(0) =~= wv);
    while i < ws.len()
        invariant
            i <= ws.len(),
            wv == views(ws@),
            wv == words(line@),
            trail@ == seq!['°', 'C', 'c'],
            contains(lowercase(line@), "temperature"@) || contains(lowercase(line@), "composite"@),
            f == (|w: Seq<char>| temp_of_word(w)),
            first_some(wv, f) == first_some(wv.skip(i as int), f),
        decreases ws.len() - i,
    {
        assert(wv[i as int] == ws@[i as int]@);
        let num = trim_end_chars_exec(&ws[i], &trail);
        match plausible_temp_exec(&num) {
            Some(t) => {
                proof {
                    lemma_first_some_hit(wv, f, i as int);
                }
                return Some(t);
            },
            None => {},
        }
        proof {
            lemma_first_some_step(wv, f, i as int);
        }
        i = i + 1;
    }
    assert(wv.skip(i as int).len() == 0);
    None
}

/// Extracts a temperature from tool output such as `nvme smart-log` or
/// `smartctl -A`: on the first line that mentions `temperature` or
/// `composite` (in any case) and has one, the first word that, without
/// trailing `°`, `C` and `c`, reads as a number whose `f32` lies from -20 to 150.
pub fn extract_temp_from_text(text: &str) -> (r: Option<i64>)
    ensures
        opt_int(r) == text_temp(text@),
{
    let t = str_chars(text);
    let ls = lines_exec(&t);
    let ghost f = |l: Seq<char>| temp_of_line(l);
    let ghost lv = views(ls@);
    let mut i: usize = 0;
    assert(lv.skip(0) =~= lv);
    while i < ls.len()
        invariant
            i <= ls.len(),
            lv == views(ls@),
            lv == lines(text@),
            f == (|l: Seq<char>| temp_of_line(l)),
            first_some(lv, f) == first_some(lv.skip(i as int), f),
        decreases ls.len() - i,
    {
        assert(lv[i as int] == ls@[i as int]@);
        match temp_of_line_exec(&ls[i]) {
            Some(v) => {
                proof {
                    lemma_first_some_hit(lv, f, i as int);
                }
                return Some(v);
            },
            None => {},
        }
        proof {
            lemma_first_some_step(lv, f, i as int);
        }
        i = i + 1;
    }
    assert(lv.skip(i as int).len() == 0);
    None
}

/// A line of `sensors` output that ends the current chip section: it is
/// not empty, not indented and no `Adapter:` line, and (for the NVMe
/// section) does not mention `Composite`.
pub open spec fn leaves_section(line: Seq<char>, keep_composite: bool) -> bool {
    line.len() > 0 && line[0] != ' ' && line[0] != '\t' && !"Adapter:"@.is_prefix_of(line) && !(
    keep_composite && contains(line, "Composite"@))
}

/// The first NVMe composite temperature in `sensors` output, scanning the
/// lines `ls` with `in_nvme` telling whether they start inside an NVMe
/// chip section (one that begins at a line starting with `nvme-`).
pub open spec fn nvme_scan(ls: Seq<Seq<char>>, in_nvme: bool) -> Option<int>
    decreases ls.len(),
{
    if ls.len() == 0 {
        None
    } else {
        let line = ls[0];
        if "nvme-pci-"@.is_prefix_of(line) || "nvme-"@.is_prefix_of(line) {
            nvme_scan(ls.drop_first(), true)
        } else {
            let inside = in_nvme && !leaves_section(line, true);
            if inside && contains(lowercase(line), "composite"@) && celsius_value(line) is Some {
                celsius_value(line)
            } else {
                nvme_scan(ls.drop_first(), inside)
            }
        }
    }
}

/// The first AMD GPU edge temperature in `sensors` output, scanning as
/// `nvme_scan` does for sections that begin at a line starting with
/// `amdgpu-` and readings on lines that start (after indentation) with `edge:`.
pub open spec fn amd_edge_scan(ls: Seq<Seq<char>>, in_amd: bool) -> Option<int>
    decreases ls.len(),
{
    if ls.len() == 0 {
        None
    } else {
        let line = ls[0];
        if "amdgpu-"@.is_prefix_of(line) {
            amd_edge_scan(ls.drop_first(), true)
        } else {
            let inside = in_amd && !leaves_section(line, false);
            if inside && "edge:"@.is_prefix_of(trim_start(line)) && celsius_value(line) is Some {
                celsius_value(line)
            } else {
                amd_edge_scan(ls.drop_first(), inside)
            }
        }
    }
}

fn leaves_section_exec(line: &Vec<char>, keep_composite: bool) -> (b: bool)
    ensures
        b == leaves_section(line@, keep_composite),
{
    line.len() > 0 && line[0] != ' ' && line[0] != '\t' && !starts_with_str(line, "Adapter:") && !(
    keep_composite && contains_str(line, "Composite"))
}

/// Extracts the NVMe temperature from `sensors` output: within a chip
/// section whose header starts with `nvme-`, the first line mentioning
/// `composite` (in any case) that carries a Celsius reading from -20 to 150.
pub fn extract_nvme_temp_from_sensors(text: &str) -> (r: Option<i64>)
    ensures
        opt_int(r) == nvme_scan(lines(text@), false),
{
    let t = str_chars(text);
    let ls = lines_exec(&t);
    let ghost lv = views(ls@);
    let mut inside = false;
    let mut i: usize = 0;
    assert(lv.skip(0) =~= lv);
    while i < ls.len()
        invariant
            i <= ls.len(),
            lv == views(ls@),
            lv == lines(text@),
            nvme_scan(lv, false) == nvme_scan(lv.skip(i as int), inside),
        decreases ls.len() - i,
    {
        let line = &ls[i];
        proof {
            assert(lv[i as int] == line@);
            assert(lv.skip(i as int)[0] == line@);
            assert(lv.skip(i as int).drop_first() =~= lv.skip(i + 1));
        }
        if starts_with_str(line, "nvme-pci-") || starts_with_str(line, "nvme-") {
            inside = true;
        } else {
            if inside && leaves_section_exec(line, true) {
                inside = false;
            }
            if inside {
                let lower = to_lowercase(line);
                if contains_str(&lower, "composite") {
                    match celsius_value_exec(line) {
                        Some(v) => {
                            return Some(v);
                        },
                        None => {},
                    }
                }
            }
        }
        i = i + 1;
    }
    None
}

/// Extracts the AMD GPU edge temperature from `sensors` output: within a
/// chip section whose header starts with `amdgpu-`, the first `edge:` line
/// that carries a Celsius reading from -20 to 150.
pub fn extract_amd_edge_temp_from_sensors(text: &str) -> (r: Option<i64>)
    ensures
        opt_int(r) == amd_edge_scan(lines(text@), false),
{
    let t = str_chars(text);
    let ls = lines_exec(&t);
    let ghost lv = views(ls@);
    let mut inside = false;
    let mut i: usize = 0;
    assert(lv.skip(0) =~= lv);
    while i < ls.len()
        invariant
            i <= ls.len(),
            lv == views(ls@),
            lv == lines(text@),
            amd_edge_scan(lv, false) == amd_edge_scan(lv.skip(i as int), inside),
        decreases ls.len() - i,
    {
        let line = &ls[i];
        proof {
            assert(lv[i as int] == line@);
            assert(lv.skip(i as int)[0] == line@);
            assert(lv.skip(i as int).drop_first() =~= lv.skip(i + 1));
        }
        if starts_with_str(line, "amdgpu-") {
            inside = true;
        } else {
            if inside && leaves_section_exec(line, false) {
                inside = false;
            }
            if inside {
                let ts = trim_start_exec(line);
                if starts_with_str(&ts, "edge:") {
                    match celsius_value_exec(line) {
                        Some(v) => {
                            return Some(v);
                        },
                        None => {},
                    }
                }
            }
        }
        i = i + 1;
    }
    None
}


/// A thermal zone of `/sys/class/thermal`: its entry name and the contents
/// of its `type` and `temp` files (`None` where they could not be read).
pub struct ThermalZone {
    pub name: String,
    pub kind: Option<String>,
    pub temp: Option<String>,
}

pub open spec fn or_empty(o: Option<Seq<char>>) -> Seq<char> {
    match o {
        Some(s) => s,
        None => Seq::empty(),
    }
}

/// A reading above 1000 is in millidegrees: the `f64` it parses to
/// exceeds 1000. Next to 1000 the `f64` values are 2^-43 apart and 1000 is
/// the even neighbour, so this holds exactly when the value exceeds
/// 1000 + 2^-44.
pub open spec fn above_thousand(n: bool, d: Seq<char>, e: int) -> bool {
    !n && !at_most(d, e, 1000, 44)
}

/// The plausible temperature that a zone's number denotes, as `f64`
/// arithmetic finds it: the value, divided by 1000 when above 1000
/// (millidegrees), kept when the result lies from -20 to 150; in
/// thousandths, cut toward zero. A millidegree value `v` passes when
/// `v / 1000`, rounded to `f64`, is at most 150: as `f64` values next to
/// 150000 are 2^-35 apart, that is when `v` is at most 150000, which holds
/// of the value as parsed exactly when it is at most 150000 + 2^-36.
pub open spec fn zone_value(s: Seq<char>) -> Option<int> {
    match decimal_parts(s) {
        Some((n, d, e)) => if above_thousand(n, d, e) {
            if at_most(d, e, 150000, 36) {
                Some(cut_milli(d, e - 3) as int)
            } else {
                None
            }
        } else if f64_plausible(n, d, e) {
            Some(signed(n, cut_milli(d, e)))
        } else {
            None
        },
        None => None,
    }
}

proof fn lemma_zone_value_in_range(s: Seq<char>)
    ensures
        zone_value(s) matches Some(v) ==> temp_in_range(v),
{
    lemma_decimal_parts_digits(s);
    if let Some((n, d, e)) = decimal_parts(s) {
        lemma_at_most_by_thousandths(d, e, 20, 49);
        lemma_at_most_by_thousandths(d, e, 150, 46);
        lemma_at_most_by_thousandths(d, e, 150000, 36);
        lemma_cut_refine(d, e - 3, 3);
        reveal_with_fuel(pow10, 4);
        assert(pow10(3) == 1000);
        assert(e - 3 + 3 == e);
        if above_thousand(n, d, e) && at_most(d, e, 150000, 36) {
            assert(cut_milli(d, e) <= 150000 * 1000);
            assert(cut_milli(d, e - 3) * 1000 <= cut_milli(d, e));
        }
    }
}

/// The plausible temperature in a zone's `temp` file: its trimmed contents
/// read as `zone_value` says.
pub open spec fn zone_reading(temp: Option<Seq<char>>) -> Option<int> {
    match temp {
        Some(t) => zone_value(trim(t)),
        None => None,
    }
}

fn zone_value_exec(s: &Vec<char>) -> (r: Option<i64>)
    ensures
        opt_int(r) == zone_value(s@),
{
    match parse_decimal(s) {
        None => None,
        Some(x) => {
            proof {
                let e = decimal_parts(s@).unwrap().2;
                let c = x.scale as int;
                let d = x.digits@;
                assert(d.len() == x.digits.len());
                lemma_same_scale_cut(d, e, c, 0);
                lemma_same_scale_cut(d, e, c, -3);
                lemma_same_scale_at_most(d, e, c, 1000, 44);
                lemma_same_scale_at_most(d, e, c, 150000, 36);
                lemma_same_scale_at_most(d, e, c, 20, 49);
                lemma_same_scale_at_most(d, e, c, 150, 46);
                lemma_at_most_by_thousandths(d, c, 150000, 36);
                lemma_at_most_by_thousandths(d, c, 20, 49);
                lemma_at_most_by_thousandths(d, c, 150, 46);
                lemma_cut_refine(d, c - 3, 3);
                reveal_with_fuel(pow10, 4);
                assert(pow10(3) == 1000);
                assert(c - 3 + 3 == c);
                lemma_pow5_values();
                lemma_decimal_parts_digits(s@);
            }
            let above = !x.neg && !at_most_exec(
                &x.digits,
                x.scale,
                1000,
                44,
                5684341886080801486968994140625,
            );
            if above {
                if !at_most_exec(&x.digits, x.scale, 150000, 36, 14551915228366851806640625) {
                    return None;
                }
                match cut(&x.digits, x.scale - 3) {
                    Some((m, _)) => Some(m as i64),
                    None => None,
                }
            } else {
                let ok = if x.neg {
                    at_most_exec(&x.digits, x.scale, 20, 49, 17763568394002504646778106689453125)
                } else {
                    at_most_exec(&x.digits, x.scale, 150, 46, 142108547152020037174224853515625)
                };
                if !ok {
                    return None;
                }
                match cut(&x.digits, x.scale) {
                    Some((m, _)) => Some(signed_exec(x.neg, m)),
                    None => None,
                }
            }
        },
    }
}

/// A zone whose type names a CPU: it holds `cpu`, `pkg`, `x86` or `soc`,
/// in any case.
pub open spec fn is_cpu_kind(kind: Seq<char>) -> bool {
    let k = lowercase(kind);
    contains(k, "cpu"@) || contains(k, "pkg"@) || contains(k, "x86"@) || contains(k, "soc"@)
}

pub open spec fn is_thermal_zone(z: ThermalZone) -> bool {
    "thermal_zone"@.is_prefix_of(z.name@)
}

pub open spec fn cpu_zone_temp(z: ThermalZone) -> Option<int> {
    if is_thermal_zone(z) && is_cpu_kind(or_empty(opt_view(z.kind))) {
        zone_reading(opt_view(z.temp))
    } else {
        None
    }
}

pub open spec fn any_zone_temp(z: ThermalZone) -> Option<int> {
    if is_thermal_zone(z) {
        zone_reading(opt_view(z.temp))
    } else {
        None
    }
}

/// The CPU temperature: the first plausible reading of a CPU zone, else
/// the first plausible reading of any zone.
pub open spec fn cpu_temp(zones: Seq<ThermalZone>) -> Option<int> {
    match first_some(zones, |z: ThermalZone| cpu_zone_temp(z)) {
        Some(t) => Some(t),
        None => first_some(zones, |z: ThermalZone| any_zone_temp(z)),
    }
}

fn zone_reading_exec(temp: &Option<String>) -> (r: Option<i64>)
    ensures
        opt_int(r) == zone_reading(opt_view(*temp)),
{
    match temp {
        Some(t) => {
            let tv = str_chars(t.as_str());
            let tt = trim_exec(&tv);
            zone_value_exec(&tt)
        },
        None => None,
    }
}

fn is_cpu_kind_exec(kind: &Option<String>) -> (b: bool)
    ensures
        b == is_cpu_kind(or_empty(opt_view(*kind))),
{
    let kv = match kind {
        Some(k) => str_chars(k.as_str()),
        None => Vec::new(),
    };
    assert(kv@ =~= or_empty(opt_view(*kind)));
    let k = to_lowercase(&kv);
    contains_str(&k, "cpu") || contains_str(&k, "pkg") || contains_str(&k, "x86") || contains_str(
        &k,
        "soc",
    )
}

/// The CPU temperature from the thermal zones: among the entries named
/// `thermal_zone*`, the first whose type names a CPU (`cpu`, `pkg`, `x86`
/// or `soc`, in any case) and whose reading is plausible; failing that the
/// first with a plausible reading. A reading is the trimmed `temp` file,
/// divided by 1000 when above 1000, from -20 to 150 degrees, all as `f64`
/// arithmetic decides it (`zone_value`).
pub fn cpu_temp_from_zones(zones: &Vec<ThermalZone>) -> (r: Option<i64>)
    ensures
        opt_int(r) == cpu_temp(zones@),
{
    let ghost f = |z: ThermalZone| cpu_zone_temp(z);
    let ghost g = |z: ThermalZone| any_zone_temp(z);
    let ghost zs = zones@;
    assert(zs.skip(0) =~= zs);
    let mut i: usize = 0;
    while i < zones.len()
        invariant
            i <= zones.len(),
            zs == zones@,
            f == (|z: ThermalZone| cpu_zone_temp(z)),
            first_some(zs, f) == first_some(zs.skip(i as int), f),
        decreases zones.len() - i,
    {
        let z = &zones[i];
        let name = str_chars(z.name.as_str());
        if starts_with_str(&name, "thermal_zone") && is_cpu_kind_exec(&z.kind) {
            match zone_reading_exec(&z.temp) {
                Some(t) => {
                    proof {
                        lemma_first_some_hit(zs, f, i as int);
                    }
                    return Some(t);
                },
                None => {},
            }
        }
        proof {
            lemma_first_some_step(zs, f, i as int);
        }
        i = i + 1;
    }
    assert(zs.skip(i as int).len() == 0);
    let mut j: usize = 0;
    while j < zones.len()
        invariant
            j <= zones.len(),
            zs == zones@,
            first_some(zs, f) is None,
            f == (|z: ThermalZone| cpu_zone_temp(z)),
            g == (|z: ThermalZone| any_zone_temp(z)),
            first_some(zs, g) == first_some(zs.skip(j as int), g),
        decreases zones.len() - j,
    {
        let z = &zones[j];
        let name = str_chars(z.name.as_str());
        if starts_with_str(&name, "thermal_zone") {
            match zone_reading_exec(&z.temp) {
                Some(t) => {
                    proof {
                        lemma_first_some_hit(zs, g, j as int);
                    }
                    return Some(t);
                },
                None => {},
            }
        }
        proof {
            lemma_first_some_step(zs, g, j as int);
        }
        j = j + 1;
    }
    assert(zs.skip(j as int).len() == 0);
    None
}

/// A device of `/sys/class/hwmon`: the contents of its `name` and
/// `temp1_input` files (`None` where they could not be read).
pub struct HwmonEntry {
    pub name: Option<String>,
    pub temp1_input: Option<String>,
}

/// A number in text, when its magnitude fits the machine range.
pub open spec fn fitting(o: Option<int>) -> Option<int> {
    match o {
        Some(m) => if abs(m) <= milli_limit() {
            Some(m)
        } else {
            None
        },
        None => None,
    }
}

/// The temperature in a hwmon `temp1_input` file: its trimmed number of
/// millidegrees, in degrees.
pub open spec fn hwmon_reading(t: Option<Seq<char>>) -> Option<int> {
    match t {
        Some(s) => match fitting(decimal_milli(trim(s))) {
            Some(m) => Some(trunc_div(m, 1000)),
            None => None,
        },
        None => None,
    }
}

/// The drivers whose hwmon device reports the GPU temperature: `amdgpu`
/// for AMD, `i915` or `xe` for Intel.
pub open spec fn is_gpu_driver(name: Seq<char>, amd: bool) -> bool {
    if amd {
        name == "amdgpu"@
    } else {
        name == "i915"@ || name == "xe"@
    }
}

pub open spec fn hwmon_entry_temp(e: HwmonEntry, amd: bool) -> Option<int> {
    match opt_view(e.name) {
        Some(n) => if is_gpu_driver(trim(n), amd) {
            hwmon_reading(opt_view(e.temp1_input))
        } else {
            None
        },
        None => None,
    }
}

/// The GPU temperature from hwmon: the first device of the vendor's driver
/// with a readable temperature.
pub open spec fn hwmon_gpu_temp(entries: Seq<HwmonEntry>, amd: bool) -> Option<int> {
    first_some(entries, |e: HwmonEntry| hwmon_entry_temp(e, amd))
}

fn fitting_exec(s: &Vec<char>) -> (r: Option<i64>)
    ensures
        opt_int(r) == fitting(decimal_milli(s@)),
{
    parse_milli(s)
}

/// The temperature of a GPU driver's hwmon device (`amdgpu` when `amd`,
/// else `i915` or `xe`): the first such device whose `temp1_input` holds
/// a number of millidegrees, in degrees.
pub fn gpu_temp_from_hwmon(entries: &Vec<HwmonEntry>, amd: bool) -> (r: Option<i64>)
    ensures
        opt_int(r) == hwmon_gpu_temp(entries@, amd),
{
    let ghost f = |e: HwmonEntry| hwmon_entry_temp(e, amd);
    let ghost es = entries@;
    assert(es.skip(0) =~= es);
    let mut i: usize = 0;
    while i < entries.len()
        invariant
            i <= entries.len(),
            es == entries@,
            f == (|e: HwmonEntry| hwmon_entry_temp(e, amd)),
            first_some(es, f) == first_some(es.skip(i as int), f),
        decreases entries.len() - i,
    {
        let e = &entries[i];
        match &e.name {
            Some(n) => {
                let nv = str_chars(n.as_str());
                let nt = trim_exec(&nv);
                let matches = if amd {
                    eq_str(&nt, "amdgpu")
                } else {
                    eq_str(&nt, "i915") || eq_str(&nt, "xe")
                };
                if matches {
                    match &e.temp1_input {
                        Some(t) => {
                            let tv = str_chars(t.as_str());
                            let tt = trim_exec(&tv);
                            match fitting_exec(&tt) {
                                Some(m) => {
                                    proof {
                                        lemma_first_some_hit(es, f, i as int);
                                    }
                                    return Some(div_trunc(m, 1000));
                                },
                                None => {},
                            }
                        },
                        None => {},
                    }
                }
            },
            None => {},
        }
        proof {
            lemma_first_some_step(es, f, i as int);
        }
        i = i + 1;
    }
    assert(es.skip(i as int).len() == 0);
    None
}

/// The sources of a disk temperature, in the order they are tried: the
/// NVMe composite reading of `sensors`, then `nvme smart-log /dev/nvme0`,
/// then `smartctl -A` on `/dev/nvme0` and on `/dev/sda`.
#[derive(Clone, Copy, PartialEq, Eq, Structural, Debug)]
pub enum DiskTempProbe {
    Sensors,
    NvmeSmartLog,
    SmartctlNvme,
    SmartctlSda,
}

/// What to do after a disk temperature probe.
#[derive(Clone, Copy, PartialEq, Eq, Structural, Debug)]
pub enum DiskTempStep {
    /// The probe gave this temperature (in thousandths of a degree).
    Found(i64),
    /// Try this probe next.
    Next(DiskTempProbe),
    /// No probe gave a temperature.
    Unavailable,
}

pub open spec fn probe_after(p: DiskTempProbe) -> Option<DiskTempProbe> {
    match p {
        DiskTempProbe::Sensors => Some(DiskTempProbe::NvmeSmartLog),
        DiskTempProbe::NvmeSmartLog => Some(DiskTempProbe::SmartctlNvme),
        DiskTempProbe::SmartctlNvme => Some(DiskTempProbe::SmartctlSda),
        DiskTempProbe::SmartctlSda => None,
    }
}

/// The position of a probe in the order they are tried.
pub open spec fn probe_rank(p: DiskTempProbe) -> nat {
    match p {
        DiskTempProbe::Sensors => 0,
        DiskTempProbe::NvmeSmartLog => 1,
        DiskTempProbe::SmartctlNvme => 2,
        DiskTempProbe::SmartctlSda => 3,
    }
}

/// The temperature that a probe's output gives: the NVMe composite reading
/// for `sensors`, the first temperature line for the others.
pub open spec fn probe_reading(p: DiskTempProbe, output: Option<Seq<char>>) -> Option<int> {
    match output {
        Some(t) => match p {
            DiskTempProbe::Sensors => nvme_scan(lines(t), false),
            _ => text_temp(t),
        },
        None => None,
    }
}

impl DiskTempProbe {
    /// The probe to try first.
    pub fn first() -> (p: DiskTempProbe)
        ensures
            probe_rank(p) == 0,
    {
        DiskTempProbe::Sensors
    }
}

/// One step of the disk temperature search: given a probe and the text it
/// printed (`None` where it could not run, or `sensors` failed), the
/// temperature it found, else the next probe to try, else `Unavailable`.
pub fn disk_temp_step(probe: DiskTempProbe, output: Option<&str>) -> (r: DiskTempStep)
    ensures
        match probe_reading(
            probe,
            match output {
                Some(t) => Some(t@),
                None => None,
            },
        ) {
            Some(v) => r == DiskTempStep::Found(v as i64) && temp_in_range(v),
            None => match probe_after(probe) {
                Some(q) => r == DiskTempStep::Next(q) && probe_rank(q) == probe_rank(probe) + 1,
                None => r == DiskTempStep::Unavailable,
            },
        },
{
    let reading = match output {
        Some(t) => match probe {
            DiskTempProbe::Sensors => extract_nvme_temp_from_sensors(t),
            _ => extract_temp_from_text(t),
        },
        None => None,
    };
    match reading {
        Some(v) => {
            proof {
                lemma_probe_reading_in_range(probe, match output {
                    Some(t) => Some(t@),
                    None => None,
                });
            }
            DiskTempStep::Found(v)
        },
        None => match probe {
            DiskTempProbe::Sensors => DiskTempStep::Next(DiskTempProbe::NvmeSmartLog),
            DiskTempProbe::NvmeSmartLog => DiskTempStep::Next(DiskTempProbe::SmartctlNvme),
            DiskTempProbe::SmartctlNvme => DiskTempStep::Next(DiskTempProbe::SmartctlSda),
            DiskTempProbe::SmartctlSda => DiskTempStep::Unavailable,
        },
    }
}

proof fn lemma_first_some_in_range<T>(s: Seq<T>, f: spec_fn(T) -> Option<int>)
    requires
        forall|x: T| #[trigger] f(x) matches Some(v) ==> temp_in_range(v),
    ensures
        first_some(s, f) matches Some(v) ==> temp_in_range(v),
    decreases s.len(),
{
    if s.len() > 0 {
        lemma_first_some_in_range(s.drop_first(), f);
    }
}

proof fn lemma_celsius_value_in_range(text: Seq<char>)
    ensures
        celsius_value(text) matches Some(v) ==> temp_in_range(v),
{
    assert forall|p: Seq<char>| (#[trigger] celsius_of_word(p)) is Some implies temp_in_range(celsius_of_word(p).unwrap()) by {
        lemma_plausible_in_range(numeric_part(p));
    }
    lemma_first_some_in_range(words(text), |p: Seq<char>| celsius_of_word(p));
}

proof fn lemma_nvme_scan_in_range(ls: Seq<Seq<char>>, inside: bool)
    ensures
        nvme_scan(ls, inside) matches Some(v) ==> temp_in_range(v),
    decreases ls.len(),
{
    if ls.len() > 0 {
        lemma_celsius_value_in_range(ls[0]);
        lemma_nvme_scan_in_range(ls.drop_first(), true);
        lemma_nvme_scan_in_range(ls.drop_first(), false);
    }
}

proof fn lemma_text_temp_in_range(text: Seq<char>)
    ensures
        text_temp(text) matches Some(v) ==> temp_in_range(v),
{
    let f = |w: Seq<char>| temp_of_word(w);
    assert forall|w: Seq<char>| (#[trigger] temp_of_word(w)) is Some implies temp_in_range(temp_of_word(w).unwrap()) by {
        lemma_plausible_in_range(trim_end_chars(w, seq!['°', 'C', 'c']));
    }
    assert forall|l: Seq<char>| (#[trigger] temp_of_line(l)) is Some implies temp_in_range(
        temp_of_line(l).unwrap(),
    ) by {
        lemma_first_some_in_range(words(l), f);
    }
    lemma_first_some_in_range(lines(text), |l: Seq<char>| temp_of_line(l));
}

proof fn lemma_probe_reading_in_range(p: DiskTempProbe, output: Option<Seq<char>>)
    ensures
        probe_reading(p, output) matches Some(v) ==> temp_in_range(v),
{
    match output {
        Some(t) => {
            lemma_nvme_scan_in_range(lines(t), false);
            lemma_text_temp_in_range(t);
        },
        None => {},
    }
}


proof fn lemma_amd_edge_scan_in_range(ls: Seq<Seq<char>>, inside: bool)
    ensures
        amd_edge_scan(ls, inside) matches Some(v) ==> temp_in_range(v),
    decreases ls.len(),
{
    if ls.len() > 0 {
        lemma_celsius_value_in_range(ls[0]);
        lemma_amd_edge_scan_in_range(ls.drop_first(), true);
        lemma_amd_edge_scan_in_range(ls.drop_first(), false);
    }
}

proof fn lemma_cpu_temp_in_range(zones: Seq<ThermalZone>)
    ensures
        cpu_temp(zones) matches Some(v) ==> temp_in_range(v),
{
    assert forall|t: Seq<char>| (#[trigger] zone_value(t)) is Some implies temp_in_range(zone_value(t).unwrap()) by {
        lemma_zone_value_in_range(t);
    }
    lemma_first_some_in_range(zones, |z: ThermalZone| cpu_zone_temp(z));
    lemma_first_some_in_range(zones, |z: ThermalZone| any_zone_temp(z));
}

/// Every temperature that the readers accept is plausible: from -20 to
/// 150 degrees Celsius (a Celsius word, a tool's temperature line, the
/// NVMe and AMD sections of `sensors`, and the CPU thermal zones).
pub proof fn lemma_temperatures_plausible(text: Seq<char>, zones: Seq<ThermalZone>)
    ensures
        celsius_value(text) matches Some(v) ==> temp_in_range(v),
        text_temp(text) matches Some(v) ==> temp_in_range(v),
        nvme_scan(lines(text), false) matches Some(v) ==> temp_in_range(v),
        amd_edge_scan(lines(text), false) matches Some(v) ==> temp_in_range(v),
        cpu_temp(zones) matches Some(v) ==> temp_in_range(v),
{
    lemma_celsius_value_in_range(text);
    lemma_text_temp_in_range(text);
    lemma_nvme_scan_in_range(lines(text), false);
    lemma_amd_edge_scan_in_range(lines(text), false);
    lemma_cpu_temp_in_range(zones);
}

} // verus!
