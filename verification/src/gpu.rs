//! GPU readings: `nvidia-smi` CSV output, the `amdgpu` sensors and sysfs
//! files, and Intel's hwmon and frequency files.

use vstd::prelude::*;
use crate::number::{
    abs, all_digits, big_scale, decimal_milli, decimal_view, divisor_value, milli_limit, parse_decimal,
    parse_milli, ratio_exec, ratio_milli, scaled_parts, trunc_div, usable_divisor, Decimal,
};
use crate::sensors::{
    amd_edge_scan, extract_amd_edge_temp_from_sensors, first_some, fitting, hwmon_gpu_temp,
    gpu_temp_from_hwmon, lemma_first_some_hit, lemma_first_some_step, opt_int, opt_view,
    HwmonEntry,
};
use crate::text::{
    contains_char, eq_str, lines, lines_exec, split_on, split_on_exec, starts_with_str, str_chars,
    trim, trim_exec, views,
};

verus! {

/// A GPU reading: temperature, utilization and memory use, in thousandths
/// (of a degree, of a percent, of a percent).
#[derive(Clone, Copy, PartialEq, Eq, Structural, Debug)]
pub struct GpuReading {
    pub temp: i64,
    pub util: i64,
    pub mem_pct: i64,
}

pub open spec fn gpu_view(o: Option<GpuReading>) -> Option<(int, int, int)> {
    match o {
        Some(g) => Some((g.temp as int, g.util as int, g.mem_pct as int)),
        None => None,
    }
}

/// A number in text as a float parse reads it (its parts, the power of
/// ten held to 2^80), or `dflt` where it does not parse.
pub open spec fn parts_or(s: Seq<char>, dflt: (bool, Seq<char>, int)) -> (bool, Seq<char>, int) {
    match scaled_parts(s) {
        Some(p) => p,
        None => dflt,
    }
}

/// A number's parts, read exactly: `Some` where the text is a number.
fn read_parts(s: &Vec<char>) -> (r: Option<Decimal>)
    ensures
        match r {
            Some(x) => {
                &&& scaled_parts(s@) == Some(decimal_view(x))
                &&& all_digits(x.digits@)
                &&& -2 * big_scale() <= x.scale <= 2 * big_scale()
            },
            None => scaled_parts(s@) is None,
        },
{
    parse_decimal(s)
}

/// The parts of `s`, or those of the whole number `one` (0 or 1) where it
/// does not parse.
fn parts_or_exec(s: &Vec<char>, one: bool) -> (r: Decimal)
    ensures
        decimal_view(r) == parts_or(
            s@,
            (
                false,
                if one {
                    seq!['1']
                } else {
                    seq!['0']
                },
                0,
            ),
        ),
        all_digits(r.digits@),
        -2 * big_scale() <= r.scale <= 2 * big_scale(),
{
    match read_parts(s) {
        Some(x) => x,
        None => {
            let mut digits: Vec<char> = Vec::new();
            digits.push(if one {
                '1'
            } else {
                '0'
            });
            proof {
                assert(digits@ =~= if one {
                    seq!['1']
                } else {
                    seq!['0']
                });
            }
            Decimal { neg: false, digits, scale: 0 }
        },
    }
}

/// `u` as a percentage of `t`, or `None` where `t` cannot divide.
fn ratio_of(u: &Decimal, t: &Decimal) -> (r: Option<i64>)
    requires
        all_digits(u.digits@),
        all_digits(t.digits@),
        -2 * big_scale() <= u.scale <= 2 * big_scale(),
        -2 * big_scale() <= t.scale <= 2 * big_scale(),
    ensures
        match r {
            Some(v) => usable_divisor(decimal_view(*t)) && v == ratio_milli(
                decimal_view(*u),
                decimal_view(*t),
            ),
            None => !usable_divisor(decimal_view(*t)),
        },
{
    match divisor_value(t) {
        Some(b) => Some(ratio_exec(u, t, b)),
        None => None,
    }
}

/// The number in text, in thousandths, or `d` where it does not parse
/// (`s.parse().unwrap_or(d)`).
pub open spec fn milli_or(s: Seq<char>, d: int) -> int {
    match fitting(decimal_milli(s)) {
        Some(m) => m,
        None => d,
    }
}

fn milli_or_exec(s: &Vec<char>, d: i64) -> (r: i64)
    ensures
        r == milli_or(s@, d as int),
{
    match parse_milli(s) {
        Some(m) => m,
        None => d,
    }
}

/// The reading on a CSV line of `nvidia-smi --query-gpu=temperature.gpu,
/// utilization.gpu,memory.used,memory.total --format=csv,noheader,nounits`:
/// the trimmed fields, 0 where they do not parse (1 for the total), and
/// the memory use as a percentage of the total, worked out from the exact
/// digits (0 where the total is not positive, or where its digits are worth
/// more than 2^80).
pub open spec fn nvidia_line(line: Seq<char>) -> Option<(int, int, int)> {
    let parts = split_on(line, seq![',']);
    if parts.len() >= 4 {
        let used = parts_or(trim(parts[2]), (false, seq!['0'], 0));
        let total = parts_or(trim(parts[3]), (false, seq!['1'], 0));
        Some(
            (
                milli_or(trim(parts[0]), 0),
                milli_or(trim(parts[1]), 0),
                if usable_divisor(total) {
                    ratio_milli(used, total)
                } else {
                    0
                },
            ),
        )
    } else {
        None
    }
}

/// The first GPU in `nvidia-smi` output: the first line with four fields.
pub open spec fn nvidia_reading(text: Seq<char>) -> Option<(int, int, int)> {
    first_some(lines(text), |l: Seq<char>| nvidia_line(l))
}

fn nvidia_line_exec(line: &Vec<char>) -> (r: Option<GpuReading>)
    ensures
        gpu_view(r) == nvidia_line(line@),
{
    let comma = str_chars(",");
    proof {
        reveal_strlit(",");
        assert(comma@ =~= seq![',']);
    }
    let parts = split_on_exec(line, &comma);
    if parts.len() < 4 {
        return None;
    }
    assert(views(parts@)[0] == parts@[0]@);
    assert(views(parts@)[1] == parts@[1]@);
    assert(views(parts@)[2] == parts@[2]@);
    assert(views(parts@)[3] == parts@[3]@);
    let temp = milli_or_exec(&trim_exec(&parts[0]), 0);
    let util = milli_or_exec(&trim_exec(&parts[1]), 0);
    let used = parts_or_exec(&trim_exec(&parts[2]), false);
    let total = parts_or_exec(&trim_exec(&parts[3]), true);
    let mem = match ratio_of(&used, &total) {
        Some(p) => p,
        None => 0,
    };
    Some(GpuReading { temp, util, mem_pct: mem })
}

/// What to do after asking `nvidia-smi`.
#[derive(Clone, Copy, PartialEq, Eq, Structural, Debug)]
pub enum GpuStep {
    /// `nvidia-smi` gave this reading.
    Found(GpuReading),
    /// No NVIDIA reading: read the AMD and Intel sources instead.
    ProbeSysfs,
}

/// The step after `nvidia-smi`: its reading where its output (`None` where
/// it could not be run or failed) holds one, else on to the sysfs sources.
pub fn nvidia_step(output: Option<&str>) -> (r: GpuStep)
    ensures
        match output {
            Some(t) => match nvidia_reading(t@) {
                Some(g) => r matches GpuStep::Found(x) && gpu_view(Some(x)) == Some(g),
                None => r == GpuStep::ProbeSysfs,
            },
            None => r == GpuStep::ProbeSysfs,
        },
{
    match output {
        Some(t) => match nvidia_gpu(t) {
            Some(g) => GpuStep::Found(g),
            None => GpuStep::ProbeSysfs,
        },
        None => GpuStep::ProbeSysfs,
    }
}

/// Reads `nvidia-smi` CSV output: the first line with at least four
/// comma-separated fields gives the temperature, the utilization and the
/// memory use (used over total, as a percentage).
pub fn nvidia_gpu(text: &str) -> (r: Option<GpuReading>)
    ensures
        gpu_view(r) == nvidia_reading(text@),
{
    let t = str_chars(text);
    let ls = lines_exec(&t);
    let ghost f = |l: Seq<char>| nvidia_line(l);
    let ghost lv = views(ls@);
    assert(lv.skip(0) =~= lv);
    let mut i: usize = 0;
    while i < ls.len()
        invariant
            i <= ls.len(),
            lv == views(ls@),
            lv == lines(text@),
            f == (|l: Seq<char>| nvidia_line(l)),
            first_some(lv, f) == first_some(lv.skip(i as int), f),
        decreases ls.len() - i,
    {
        assert(lv[i as int] == ls@[i as int]@);
        match nvidia_line_exec(&ls[i]) {
            Some(g) => {
                proof {
                    lemma_first_some_hit(lv, f, i as int);
                }
                return Some(g);
            },
            None => {},
        }
        proof {
            lemma_first_some_step(lv, f, i as int);
        }
        i = i + 1;
    }
    assert(lv.skip(i as int).len() == 0);
    None
}

/// A DRM device of `/sys/class/drm`: its entry name and the contents of
/// the files that the GPU readings use (`None` where they could not be
/// read): `device/gpu_busy_percent`, `device/mem_info_vram_used`,
/// `device/mem_info_vram_total`, `device/vendor`,
/// `gt/gt0/rps_cur_freq_mhz` and `gt/gt0/rps_max_freq_mhz`.
pub struct DrmCard {
    pub name: String,
    pub gpu_busy_percent: Option<String>,
    pub vram_used: Option<String>,
    pub vram_total: Option<String>,
    pub vendor: Option<String>,
    pub cur_freq_mhz: Option<String>,
    pub max_freq_mhz: Option<String>,
}

/// A card entry (`card0`), not a connector (`card0-HDMI-A-1`).
pub open spec fn is_gpu_card(name: Seq<char>) -> bool {
    "card"@.is_prefix_of(name) && !name.contains('-')
}

/// The number in an optional file's trimmed text.
pub open spec fn file_number(o: Option<Seq<char>>) -> Option<int> {
    match o {
        Some(t) => fitting(decimal_milli(trim(t))),
        None => None,
    }
}

pub open spec fn card_busy(c: DrmCard) -> Option<int> {
    if is_gpu_card(c.name@) {
        file_number(opt_view(c.gpu_busy_percent))
    } else {
        None
    }
}

/// The parts of the number in an optional file's trimmed text.
pub open spec fn file_parts(o: Option<Seq<char>>) -> Option<(bool, Seq<char>, int)> {
    match o {
        Some(t) => scaled_parts(trim(t)),
        None => None,
    }
}

/// The VRAM in use as a percentage of the total, worked out from the
/// exact digits; a card whose total is not positive (or whose total's
/// digits are worth more than 2^80) gives none.
pub open spec fn card_vram(c: DrmCard) -> Option<int> {
    if is_gpu_card(c.name@) {
        match (file_parts(opt_view(c.vram_used)), file_parts(opt_view(c.vram_total))) {
            (Some(u), Some(t)) => if usable_divisor(t) {
                Some(ratio_milli(u, t))
            } else {
                None
            },
            _ => None,
        }
    } else {
        None
    }
}

pub open spec fn card_intel_util(c: DrmCard) -> Option<int> {
    if is_gpu_card(c.name@) && opt_view(c.vendor) is Some && trim(opt_view(c.vendor).unwrap())
        == "0x8086"@ {
        match (file_parts(opt_view(c.cur_freq_mhz)), file_parts(opt_view(c.max_freq_mhz))) {
            (Some(cur), Some(max)) => if usable_divisor(max) {
                let p = ratio_milli(cur, max);
                Some(
                    if p < 100000 {
                        p
                    } else {
                        100000
                    },
                )
            } else {
                None
            },
            _ => None,
        }
    } else {
        None
    }
}

fn is_gpu_card_exec(name: &String) -> (b: bool)
    ensures
        b == is_gpu_card(name@),
{
    let n = str_chars(name.as_str());
    starts_with_str(&n, "card") && !contains_char(&n, '-')
}

fn file_number_exec(o: &Option<String>) -> (r: Option<i64>)
    ensures
        opt_int(r) == file_number(opt_view(*o)),
{
    match o {
        Some(t) => {
            let tv = str_chars(t.as_str());
            parse_milli(&trim_exec(&tv))
        },
        None => None,
    }
}

fn file_parts_exec(o: &Option<String>) -> (r: Option<Decimal>)
    ensures
        match r {
            Some(x) => {
                &&& file_parts(opt_view(*o)) == Some(decimal_view(x))
                &&& all_digits(x.digits@)
                &&& -2 * big_scale() <= x.scale <= 2 * big_scale()
            },
            None => file_parts(opt_view(*o)) is None,
        },
{
    match o {
        Some(t) => {
            let tv = str_chars(t.as_str());
            read_parts(&trim_exec(&tv))
        },
        None => None,
    }
}

/// Which reading of a card to take.
pub enum CardReading {
    Busy,
    Vram,
    IntelUtil,
}

pub open spec fn card_value(c: DrmCard, which: CardReading) -> Option<int> {
    match which {
        CardReading::Busy => card_busy(c),
        CardReading::Vram => card_vram(c),
        CardReading::IntelUtil => card_intel_util(c),
    }
}

fn card_value_exec(c: &DrmCard, which: &CardReading) -> (r: Option<i64>)
    ensures
        opt_int(r) == card_value(*c, *which),
{
    if !is_gpu_card_exec(&c.name) {
        return None;
    }
    match which {
        CardReading::Busy => file_number_exec(&c.gpu_busy_percent),
        CardReading::Vram => {
            match (file_parts_exec(&c.vram_used), file_parts_exec(&c.vram_total)) {
                (Some(u), Some(t)) => ratio_of(&u, &t),
                _ => None,
            }
        },
        CardReading::IntelUtil => {
            let intel = match &c.vendor {
                Some(v) => {
                    let vv = str_chars(v.as_str());
                    eq_str(&trim_exec(&vv), "0x8086")
                },
                None => false,
            };
            if !intel {
                return None;
            }
            match (file_parts_exec(&c.cur_freq_mhz), file_parts_exec(&c.max_freq_mhz)) {
                (Some(cur), Some(max)) => match ratio_of(&cur, &max) {
                    Some(p) => Some(
                        if p < 100000 {
                            p
                        } else {
                            100000
                        },
                    ),
                    None => None,
                },
                _ => None,
            }
        },
    }
}

/// The first card (in order) that gives the chosen reading: the AMD busy
/// percentage, the AMD VRAM use as a percentage, or the Intel utilization
/// (current over maximum GPU frequency, as a percentage, at most 100).
pub fn card_reading(cards: &Vec<DrmCard>, which: CardReading) -> (r: Option<i64>)
    ensures
        opt_int(r) == first_some(cards@, |c: DrmCard| card_value(c, which)),
{
    let ghost f = |c: DrmCard| card_value(c, which);
    let ghost cs = cards@;
    assert(cs.skip(0) =~= cs);
    let mut i: usize = 0;
    while i < cards.len()
        invariant
            i <= cards.len(),
            cs == cards@,
            f == (|c: DrmCard| card_value(c, which)),
            first_some(cs, f) == first_some(cs.skip(i as int), f),
        decreases cards.len() - i,
    {
        match card_value_exec(&cards[i], &which) {
            Some(v) => {
                proof {
                    lemma_first_some_hit(cs, f, i as int);
                }
                return Some(v);
            },
            None => {},
        }
        proof {
            lemma_first_some_step(cs, f, i as int);
        }
        i = i + 1;
    }
    assert(cs.skip(i as int).len() == 0);
    None
}

pub open spec fn or_zero(o: Option<int>) -> int {
    match o {
        Some(v) => v,
        None => 0,
    }
}

/// The GPU reading from sysfs when `nvidia-smi` gave none: an AMD GPU if
/// its temperature is known (the `sensors` edge reading, else the `amdgpu`
/// hwmon device), with its busy percentage and VRAM use (0 where unknown);
/// else an Intel GPU if its hwmon temperature or its utilization is
/// positive, with memory use 0; else none.
pub open spec fn sysfs_gpu(
    sensors: Option<Seq<char>>,
    hwmon: Seq<HwmonEntry>,
    cards: Seq<DrmCard>,
) -> Option<(int, int, int)> {
    let sensors_temp = match sensors {
        Some(t) => amd_edge_scan(lines(t), false),
        None => None,
    };
    let amd_temp = match sensors_temp {
        Some(t) => Some(t),
        None => hwmon_gpu_temp(hwmon, true),
    };
    match amd_temp {
        Some(t) => Some(
            (
                t,
                or_zero(first_some(cards, |c: DrmCard| card_value(c, CardReading::Busy))),
                or_zero(first_some(cards, |c: DrmCard| card_value(c, CardReading::Vram))),
            ),
        ),
        None => {
            let temp = or_zero(hwmon_gpu_temp(hwmon, false));
            let util = or_zero(first_some(cards, |c: DrmCard| card_value(c, CardReading::IntelUtil)));
            if temp > 0 || util > 0 {
                Some((temp, util, 0))
            } else {
                None
            }
        },
    }
}

/// Without an AMD temperature, an Intel GPU whose hwmon device (`i915` or
/// `xe`) gives a positive temperature is reported with that temperature
/// and no memory figure, whatever its utilization; and one whose cards give
/// a positive utilization is reported with that utilization.
pub proof fn lemma_intel_gpu_reported(
    sensors: Option<Seq<char>>,
    hwmon: Seq<HwmonEntry>,
    cards: Seq<DrmCard>,
)
    requires
        match sensors {
            Some(t) => amd_edge_scan(lines(t), false) is None,
            None => true,
        },
        hwmon_gpu_temp(hwmon, true) is None,
    ensures
        ({
            let t = hwmon_gpu_temp(hwmon, false);
            let r = sysfs_gpu(sensors, hwmon, cards);
            t is Some && t.unwrap() > 0 ==> r is Some && r.unwrap().0 == t.unwrap() && r.unwrap().2
                == 0
        }),
        ({
            let u = first_some(cards, |c: DrmCard| card_value(c, CardReading::IntelUtil));
            let r = sysfs_gpu(sensors, hwmon, cards);
            u is Some && u.unwrap() > 0 ==> r is Some && r.unwrap().1 == u.unwrap() && r.unwrap().2
                == 0
        }),
{
}

/// An AMD GPU comes first: where `sensors` gives an AMD edge temperature,
/// that temperature is reported, else where an `amdgpu` hwmon device gives
/// one, that one; and where neither an AMD nor an Intel temperature nor an
/// Intel utilization is found, no GPU is reported.
pub proof fn lemma_amd_gpu_first(sensors: Option<Seq<char>>, hwmon: Seq<HwmonEntry>, cards: Seq<DrmCard>)
    ensures
        ({
            let edge = match sensors {
                Some(t) => amd_edge_scan(lines(t), false),
                None => None,
            };
            let r = sysfs_gpu(sensors, hwmon, cards);
            &&& edge is Some ==> r is Some && r.unwrap().0 == edge.unwrap()
            &&& edge is None && hwmon_gpu_temp(hwmon, true) is Some ==> r is Some && r.unwrap().0
                == hwmon_gpu_temp(hwmon, true).unwrap()
            &&& edge is None && hwmon_gpu_temp(hwmon, true) is None && hwmon_gpu_temp(hwmon, false)
                is None && first_some(cards, |c: DrmCard| card_value(c, CardReading::IntelUtil))
                is None ==> r is None
        }),
{
}

fn or_zero_exec(o: Option<i64>) -> (r: i64)
    ensures
        r == or_zero(opt_int(o)),
{
    match o {
        Some(v) => v,
        None => 0,
    }
}

/// The GPU reading from `sensors` output (`None` where it failed), the
/// hwmon devices and the DRM cards, as `sysfs_gpu` says.
pub fn gpu_from_sysfs(sensors: Option<&str>, hwmon: &Vec<HwmonEntry>, cards: &Vec<DrmCard>) -> (r:
    Option<GpuReading>)
    ensures
        gpu_view(r) == sysfs_gpu(
            match sensors {
                Some(t) => Some(t@),
                None => None,
            },
            hwmon@,
            cards@,
        ),
{
    let sensors_temp = match sensors {
        Some(t) => extract_amd_edge_temp_from_sensors(t),
        None => None,
    };
    let amd_temp = match sensors_temp {
        Some(t) => Some(t),
        None => gpu_temp_from_hwmon(hwmon, true),
    };
    match amd_temp {
        Some(t) => {
            let util = or_zero_exec(card_reading(cards, CardReading::Busy));
            let mem = or_zero_exec(card_reading(cards, CardReading::Vram));
            Some(GpuReading { temp: t, util, mem_pct: mem })
        },
        None => {
            let temp = or_zero_exec(gpu_temp_from_hwmon(hwmon, false));
            let util = or_zero_exec(card_reading(cards, CardReading::IntelUtil));
            if temp > 0 || util > 0 {
                Some(GpuReading { temp, util, mem_pct: 0 })
            } else {
                None
            }
        },
    }
}

} // verus!
