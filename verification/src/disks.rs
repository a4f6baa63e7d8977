//! Disks: the usage of the root (or largest) file system, and the I/O
//! counters of `/proc/diskstats` with the choice of the disk to report.

use vstd::prelude::*;
use crate::number::{parse_u64, unsigned_value};
use crate::sensors::{first_some, lemma_first_some_hit, lemma_first_some_step};
use crate::text::{
    chars_string, contains_char, eq_str, is_ascii_digit, is_ascii_digit_char,
    is_numeric, is_numeric_char, lines, lines_exec, starts_with_str, str_chars, views, words,
    words_exec,
};

verus! {

/// A mounted file system: its mount point and its total and available bytes.
pub struct DiskSpace {
    pub mount: String,
    pub total: u64,
    pub available: u64,
}

/// The used share of a disk, as a percentage in thousandths (rounded
/// toward zero); the used bytes are the total less the available ones,
/// or none when more are available.
pub open spec fn disk_used_pct(total: u64, available: u64) -> int {
    let used = if available <= total {
        total - available
    } else {
        0
    };
    (used * 100000) / (total as int)
}

/// The state of the usage scan: the root file system's usage, the usage
/// of the largest file system, and its size.
pub open spec fn usage_fold(ds: Seq<DiskSpace>) -> (Option<int>, Option<int>, u64)
    decreases ds.len(),
{
    if ds.len() == 0 {
        (None, None, 0)
    } else {
        let (root, largest, size) = usage_fold(ds.drop_last());
        let d = ds.last();
        if d.total == 0 {
            (root, largest, size)
        } else {
            let pct = disk_used_pct(d.total, d.available);
            (
                if d.mount@ == "/"@ {
                    Some(pct)
                } else {
                    root
                },
                if d.total > size {
                    Some(pct)
                } else {
                    largest
                },
                if d.total > size {
                    d.total
                } else {
                    size
                },
            )
        }
    }
}

/// The reported disk usage: that of the root file system (the last one
/// mounted at `/`), else that of the largest (the first of the largest
/// size), else 0; file systems of size 0 are ignored.
pub open spec fn disk_usage(ds: Seq<DiskSpace>) -> int {
    let (root, largest, _) = usage_fold(ds);
    match root {
        Some(p) => p,
        None => match largest {
            Some(p) => p,
            None => 0,
        },
    }
}

proof fn lemma_pct_bound(total: u64, available: u64)
    requires
        total > 0,
    ensures
        0 <= disk_used_pct(total, available) <= 100000,
{
    let used: int = if available <= total {
        total - available
    } else {
        0
    };
    assert(0 <= (used * 100000) / (total as int) <= 100000) by (nonlinear_arith)
        requires
            0 <= used <= total,
            total > 0,
    ;
}

/// The disk usage that the disk frame reports, as `disk_usage` says.
pub fn disk_usage_pct(disks: &Vec<DiskSpace>) -> (r: i64)
    ensures
        r == disk_usage(disks@),
        0 <= r <= 100000,
{
    let mut root: Option<i64> = None;
    let mut largest: Option<i64> = None;
    let mut size: u64 = 0;
    let mut i: usize = 0;
    while i < disks.len()
        invariant
            i <= disks.len(),
            ({
                let (r, l, s) = usage_fold(disks@.take(i as int));
                &&& s == size
                &&& r == match root {
                    Some(v) => Some(v as int),
                    None => None,
                }
                &&& l == match largest {
                    Some(v) => Some(v as int),
                    None => None,
                }
            }),
            root matches Some(v) ==> 0 <= v <= 100000,
            largest matches Some(v) ==> 0 <= v <= 100000,
        decreases disks.len() - i,
    {
        let d = &disks[i];
        proof {
            assert(disks@.take(i + 1).drop_last() =~= disks@.take(i as int));
            assert(disks@.take(i + 1).last() == *d);
        }
        if d.total != 0 {
            let used: u64 = if d.available <= d.total {
                d.total - d.available
            } else {
                0
            };
            proof {
                lemma_pct_bound(d.total, d.available);
            }
            let pct = ((used as u128 * 100000) / (d.total as u128)) as i64;
            let mount = str_chars(d.mount.as_str());
            if eq_str(&mount, "/") {
                root = Some(pct);
            }
            if d.total > size {
                size = d.total;
                largest = Some(pct);
            }
        }
        i = i + 1;
    }
    assert(disks@.take(disks.len() as int) =~= disks@);
    match root {
        Some(p) => p,
        None => match largest {
            Some(p) => p,
            None => 0,
        },
    }
}

/// A device that is no whole disk: a loop, RAM, device-mapper, optical or
/// zram device, a numbered partition (`sda1`), or an NVMe partition
/// (`nvme0n1p1`).
pub open spec fn skip_device(name: Seq<char>) -> bool {
    "loop"@.is_prefix_of(name) || "ram"@.is_prefix_of(name) || "dm-"@.is_prefix_of(name)
        || "sr"@.is_prefix_of(name) || "zram"@.is_prefix_of(name) || (!"nvme"@.is_prefix_of(name)
        && name.len() > 0 && is_ascii_digit(name.last())) || ("nvme"@.is_prefix_of(name)
        && name.contains('p') && name.len() > 0 && is_numeric(name.last()))
}

/// `n * 512` as `u64` arithmetic wraps it.
pub open spec fn sectors_to_bytes(n: u64) -> u64 {
    ((n * 512) % 0x1_0000_0000_0000_0000) as u64
}

/// The counters on a `/proc/diskstats` line: for a whole disk with at least
/// 14 columns, its name (column 3) and the bytes read and written (columns
/// 6 and 10, in 512-byte sectors).
pub open spec fn diskstats_line(line: Seq<char>) -> Option<(Seq<char>, u64, u64)> {
    let cols = words(line);
    if cols.len() < 14 || skip_device(cols[2]) {
        None
    } else {
        match (unsigned_value(cols[5]), unsigned_value(cols[9])) {
            (Some(r), Some(w)) => if r <= u64::MAX && w <= u64::MAX {
                Some((cols[2], sectors_to_bytes(r as u64), sectors_to_bytes(w as u64)))
            } else {
                None
            },
            _ => None,
        }
    }
}

/// The position of the first entry named `n`, from position `i`.
pub open spec fn name_index_from(es: Seq<(Seq<char>, u64, u64)>, n: Seq<char>, i: int) -> Option<
    int,
>
    decreases es.len() - i,
{
    if i < 0 || i >= es.len() {
        None
    } else if es[i].0 == n {
        Some(i)
    } else {
        name_index_from(es, n, i + 1)
    }
}

/// The counters with `e` recorded: replacing the entry of the same name,
/// else added at the end (a map keyed by device name).
pub open spec fn upsert(es: Seq<(Seq<char>, u64, u64)>, e: (Seq<char>, u64, u64)) -> Seq<
    (Seq<char>, u64, u64),
> {
    match name_index_from(es, e.0, 0) {
        Some(j) => es.update(j, e),
        None => es.push(e),
    }
}

/// The counters of all whole disks in `/proc/diskstats` lines, one entry
/// per device name (a later line replacing an earlier one), in the order
/// in which the names first appear.
pub open spec fn diskstats(ls: Seq<Seq<char>>) -> Seq<(Seq<char>, u64, u64)>
    decreases ls.len(),
{
    if ls.len() == 0 {
        Seq::empty()
    } else {
        let rest = diskstats(ls.drop_last());
        match diskstats_line(ls.last()) {
            Some(e) => upsert(rest, e),
            None => rest,
        }
    }
}

/// The I/O counters of a disk: total bytes read and written.
pub struct DiskCounters {
    pub name: String,
    pub read_bytes: u64,
    pub written_bytes: u64,
}

pub open spec fn counters_view(cs: Seq<DiskCounters>) -> Seq<(Seq<char>, u64, u64)> {
    cs.map_values(|c: DiskCounters| (c.name@, c.read_bytes, c.written_bytes))
}

fn skip_device_exec(name: &Vec<char>) -> (b: bool)
    ensures
        b == skip_device(name@),
{
    let nvme = starts_with_str(name, "nvme");
    starts_with_str(name, "loop") || starts_with_str(name, "ram") || starts_with_str(name, "dm-")
        || starts_with_str(name, "sr") || starts_with_str(name, "zram") || (!nvme && name.len() > 0
        && is_ascii_digit_char(name[name.len() - 1])) || (nvme && contains_char(name, 'p')
        && name.len() > 0 && is_numeric_char(name[name.len() - 1]))
}

fn sectors_to_bytes_exec(n: u64) -> (r: u64)
    ensures
        r == sectors_to_bytes(n),
{
    ((n as u128 * 512) % 0x1_0000_0000_0000_0000u128) as u64
}

fn diskstats_line_exec(line: &Vec<char>) -> (r: Option<DiskCounters>)
    ensures
        match r {
            Some(c) => diskstats_line(line@) == Some((c.name@, c.read_bytes, c.written_bytes)),
            None => diskstats_line(line@) is None,
        },
{
    let cols = words_exec(line);
    if cols.len() < 14 {
        return None;
    }
    assert(views(cols@)[2] == cols@[2]@);
    assert(views(cols@)[5] == cols@[5]@);
    assert(views(cols@)[9] == cols@[9]@);
    if skip_device_exec(&cols[2]) {
        return None;
    }
    match (parse_u64(&cols[5]), parse_u64(&cols[9])) {
        (Some(r), Some(w)) => Some(
            DiskCounters {
                name: chars_string(&cols[2]),
                read_bytes: sectors_to_bytes_exec(r),
                written_bytes: sectors_to_bytes_exec(w),
            },
        ),
        _ => None,
    }
}

/// The position of the counters named `n`, if any.
fn name_index(cs: &Vec<DiskCounters>, n: &Vec<char>) -> (r: Option<usize>)
    ensures
        match r {
            Some(j) => name_index_from(counters_view(cs@), n@, 0) == Some(j as int) && j < cs.len()
                && cs@[j as int].name@ == n@,
            None => name_index_from(counters_view(cs@), n@, 0) is None,
        },
{
    let ghost es = counters_view(cs@);
    let mut i: usize = 0;
    while i < cs.len()
        invariant
            i <= cs.len(),
            es == counters_view(cs@),
            name_index_from(es, n@, 0) == name_index_from(es, n@, i as int),
        decreases cs.len() - i,
    {
        let nm = str_chars(cs[i].name.as_str());
        assert(es[i as int].0 == cs@[i as int].name@);
        if crate::text::chars_eq(&nm, n) {
            return Some(i);
        }
        i = i + 1;
    }
    None
}

/// Reads `/proc/diskstats`: the read and written bytes of each whole disk
/// (as `diskstats` says), one entry per device name.
///
/// The entries form a map from device name to counters: a later line for
/// a name replaces the earlier entry in place (`lemma_diskstats_is_map`).
/// They are kept in a `Vec` in the order in which the names first appear,
/// not in a `HashMap`: a `HashMap` walks its keys in an order that each
/// process seeds afresh, and the disk choice below takes the first name
/// with the best prefix in that walk. First-appearance order is one such
/// walk, and it makes the choice the same on every run.
pub fn parse_diskstats(text: &str) -> (r: Vec<DiskCounters>)
    ensures
        counters_view(r@) == diskstats(lines(text@)),
{
    let t = str_chars(text);
    let ls = lines_exec(&t);
    let ghost lv = views(ls@);
    let mut out: Vec<DiskCounters> = Vec::new();
    let mut i: usize = 0;
    assert(counters_view(out@) =~= Seq::<(Seq<char>, u64, u64)>::empty());
    while i < ls.len()
        invariant
            i <= ls.len(),
            lv == views(ls@),
            lv == lines(text@),
            counters_view(out@) == diskstats(lv.take(i as int)),
        decreases ls.len() - i,
    {
        proof {
            assert(lv.take(i + 1).drop_last() =~= lv.take(i as int));
            assert(lv.take(i + 1).last() == ls@[i as int]@);
        }
        match diskstats_line_exec(&ls[i]) {
            Some(c) => {
                let nm = str_chars(c.name.as_str());
                match name_index(&out, &nm) {
                    Some(j) => {
                        let ghost before = out@;
                        let ghost cv = (c.name@, c.read_bytes, c.written_bytes);
                        out.set(j, c);
                        proof {
                            assert(counters_view(out@) =~= counters_view(before).update(j as int, cv));
                        }
                    },
                    None => {
                        let ghost before = out@;
                        let ghost cv = (c.name@, c.read_bytes, c.written_bytes);
                        out.push(c);
                        proof {
                            assert(counters_view(out@) =~= counters_view(before).push(cv));
                        }
                    },
                }
            },
            None => {},
        }
        i = i + 1;
    }
    assert(lv.take(ls.len() as int) =~= lv);
    out
}

pub open spec fn or_else<T>(a: Option<T>, b: Option<T>) -> Option<T> {
    match a {
        Some(x) => Some(x),
        None => b,
    }
}

/// The first disk with the most preferred name prefix: `nvme`, `sd`, `vd`,
/// `xvd`, `mmcblk`, in that order.
pub open spec fn preferred_disk(es: Seq<(Seq<char>, u64, u64)>) -> Option<Seq<char>> {
    or_else(
        first_with_prefix(es, "nvme"@),
        or_else(
            first_with_prefix(es, "sd"@),
            or_else(
                first_with_prefix(es, "vd"@),
                or_else(first_with_prefix(es, "xvd"@), first_with_prefix(es, "mmcblk"@)),
            ),
        ),
    )
}

pub open spec fn first_with_prefix(es: Seq<(Seq<char>, u64, u64)>, p: Seq<char>) -> Option<
    Seq<char>,
> {
    first_some(
        es,
        |e: (Seq<char>, u64, u64)|
            if p.is_prefix_of(e.0) {
                Some(e.0)
            } else {
                None
            },
    )
}

/// The disk to report: the one reported before, else the first with the
/// most preferred name prefix (`nvme`, `sd`, `vd`, `xvd`, `mmcblk`), else
/// the first listed, else none.
pub open spec fn disk_choice(active: Option<Seq<char>>, es: Seq<(Seq<char>, u64, u64)>) -> Option<
    Seq<char>,
> {
    match active {
        Some(a) => Some(a),
        None => match preferred_disk(es) {
            Some(n) => Some(n),
            None => if es.len() > 0 {
                Some(es[0].0)
            } else {
                None
            },
        },
    }
}

/// The counters of the disk named `n` (zero where it is not listed).
pub open spec fn disk_totals(es: Seq<(Seq<char>, u64, u64)>, n: Option<Seq<char>>) -> (u64, u64) {
    match n {
        Some(name) => match name_index_from(es, name, 0) {
            Some(j) => (es[j].1, es[j].2),
            None => (0, 0),
        },
        None => (0, 0),
    }
}

fn first_with_prefix_exec(cs: &Vec<DiskCounters>, p: &str) -> (r: Option<String>)
    ensures
        match r {
            Some(n) => first_with_prefix(counters_view(cs@), p@) == Some(n@),
            None => first_with_prefix(counters_view(cs@), p@) is None,
        },
{
    let ghost es = counters_view(cs@);
    let ghost f = |e: (Seq<char>, u64, u64)|
        if p@.is_prefix_of(e.0) {
            Some(e.0)
        } else {
            None
        };
    assert(es.skip(0) =~= es);
    let mut i: usize = 0;
    while i < cs.len()
        invariant
            i <= cs.len(),
            es == counters_view(cs@),
            f == (|e: (Seq<char>, u64, u64)|
                if p@.is_prefix_of(e.0) {
                    Some(e.0)
                } else {
                    None
                }),
            first_some(es, f) == first_some(es.skip(i as int), f),
        decreases cs.len() - i,
    {
        let nm = str_chars(cs[i].name.as_str());
        assert(es[i as int].0 == cs@[i as int].name@);
        if starts_with_str(&nm, p) {
            proof {
                lemma_first_some_hit(es, f, i as int);
            }
            return Some(cs[i].name.clone());
        }
        proof {
            lemma_first_some_step(es, f, i as int);
        }
        i = i + 1;
    }
    assert(es.skip(i as int).len() == 0);
    None
}

/// The disk to report, as `disk_choice` says.
pub fn choose_disk(active: &Option<String>, cs: &Vec<DiskCounters>) -> (r: Option<String>)
    ensures
        match r {
            Some(n) => disk_choice(opt_string_view(*active), counters_view(cs@)) == Some(n@),
            None => disk_choice(opt_string_view(*active), counters_view(cs@)) is None,
        },
{
    match active {
        Some(a) => {
            return Some(a.clone());
        },
        None => {},
    }
    let ghost es = counters_view(cs@);
    let r0 = first_with_prefix_exec(cs, "nvme");
    if r0.is_some() {
        return r0;
    }
    let r1 = first_with_prefix_exec(cs, "sd");
    if r1.is_some() {
        return r1;
    }
    let r2 = first_with_prefix_exec(cs, "vd");
    if r2.is_some() {
        return r2;
    }
    let r3 = first_with_prefix_exec(cs, "xvd");
    if r3.is_some() {
        return r3;
    }
    let r4 = first_with_prefix_exec(cs, "mmcblk");
    if r4.is_some() {
        return r4;
    }
    if cs.len() > 0 {
        assert(es[0].0 == cs@[0].name@);
        Some(cs[0].name.clone())
    } else {
        None
    }
}

pub open spec fn opt_string_view(o: Option<String>) -> Option<Seq<char>> {
    match o {
        Some(s) => Some(s@),
        None => None,
    }
}

/// The counters of the disk named `n`, zero where it is not listed.
pub fn totals_of(cs: &Vec<DiskCounters>, n: &Option<String>) -> (r: (u64, u64))
    ensures
        r == disk_totals(counters_view(cs@), opt_string_view(*n)),
{
    match n {
        Some(name) => {
            let nm = str_chars(name.as_str());
            match name_index(cs, &nm) {
                Some(j) => (cs[j].read_bytes, cs[j].written_bytes),
                None => (0, 0),
            }
        },
        None => (0, 0),
    }
}


proof fn lemma_name_index_from(es: Seq<(Seq<char>, u64, u64)>, n: Seq<char>, i: int)
    requires
        0 <= i,
    ensures
        match name_index_from(es, n, i) {
            Some(j) => i <= j < es.len() && es[j].0 == n,
            None => forall|k: int| i <= k < es.len() ==> es[k].0 != n,
        },
    decreases es.len() - i,
{
    if i < es.len() && es[i].0 != n {
        lemma_name_index_from(es, n, i + 1);
    }
}

/// No two entries share a device name.
pub open spec fn names_unique(es: Seq<(Seq<char>, u64, u64)>) -> bool {
    forall|i: int, j: int| 0 <= i < j < es.len() ==> #[trigger] es[i].0 != #[trigger] es[j].0
}

/// The disk counters are a map from device names: each name occurs once,
/// and a recorded line's counters are those of its name.
pub proof fn lemma_diskstats_is_map(ls: Seq<Seq<char>>)
    ensures
        names_unique(diskstats(ls)),
        ls.len() > 0 && diskstats_line(ls.last()) is Some ==> ({
            let e = diskstats_line(ls.last()).unwrap();
            disk_totals(diskstats(ls), Some(e.0)) == (e.1, e.2)
        }),
    decreases ls.len(),
{
    if ls.len() > 0 {
        lemma_diskstats_is_map(ls.drop_last());
        let rest = diskstats(ls.drop_last());
        match diskstats_line(ls.last()) {
            Some(e) => {
                lemma_name_index_from(rest, e.0, 0);
                let es = upsert(rest, e);
                match name_index_from(rest, e.0, 0) {
                    Some(j) => {
                        assert(es == rest.update(j, e));
                        assert forall|a: int, b: int| 0 <= a < b < es.len() implies #[trigger] es[a].0
                            != #[trigger] es[b].0 by {
                            if a == j {
                                assert(rest[b].0 != rest[j].0);
                            } else if b == j {
                                assert(rest[a].0 != rest[j].0);
                            }
                        }
                        lemma_name_index_from(es, e.0, 0);
                        match name_index_from(es, e.0, 0) {
                            Some(m) => {
                                if m != j {
                                    if m < j {
                                        assert(es[m].0 != es[j].0);
                                    } else {
                                        assert(es[j].0 != es[m].0);
                                    }
                                }
                            },
                            None => {
                                assert(es[j].0 == e.0);
                            },
                        }
                    },
                    None => {
                        assert(es == rest.push(e));
                        assert forall|a: int, b: int| 0 <= a < b < es.len() implies #[trigger] es[a].0
                            != #[trigger] es[b].0 by {
                            if b == rest.len() {
                                assert(rest[a].0 != e.0);
                            }
                        }
                        lemma_name_index_from(es, e.0, 0);
                        match name_index_from(es, e.0, 0) {
                            Some(m) => {
                                if m < rest.len() {
                                    assert(rest[m].0 != e.0);
                                }
                            },
                            None => {
                                assert(es[rest.len() as int].0 == e.0);
                            },
                        }
                    },
                }
            },
            None => {},
        }
    }
}

} // verus!
