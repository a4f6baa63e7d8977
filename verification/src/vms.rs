//! Virtual machines as `virsh` reports them: the state classification,
//! `virsh dominfo` parsing and the summary that the VM frame carries.

use vstd::prelude::*;
use crate::number::{dec_text, parse_u32, parse_u64, push_dec, unsigned_value};
use crate::text::{
    ascii_lowercase, can_cut, can_cut_exec, chars_string, clean_name, clean_name_exec, contains,
    contains_str, cut_bytes, cut_bytes_exec, eq_str, is_ascii_text, join, join_exec,
    lemma_ascii_lowercase_idempotent, lemma_lines_append, lemma_lines_one, lemma_views_push, lines,
    lines_exec, lowercase, push_all, split_once, split_once_exec, str_chars, strip_cr, to_lowercase,
    trim, trim_exec, views, words, words_exec,
};

verus! {

/// The class key and display label of a lower-cased VM state: `running`
/// (running or idle), `paused` (paused or suspended), `stopped` (shut off,
/// crashed or empty) or `other`, shown as the text itself.
pub open spec fn state_class_of(s: Seq<char>) -> (Seq<char>, Seq<char>) {
    if contains(s, "running"@) || contains(s, "idle"@) {
        ("running"@, "Running"@)
    } else if contains(s, "paused"@) || contains(s, "suspended"@) {
        ("paused"@, "Paused"@)
    } else if contains(s, "shut off"@) || contains(s, "shutoff"@) || contains(s, "crashed"@)
        || s.len() == 0 {
        ("stopped"@, "Stopped"@)
    } else {
        ("other"@, s)
    }
}

/// The class key and display label of a VM state, as the VM frame names it.
pub open spec fn vm_state_class(state: Seq<char>) -> (Seq<char>, Seq<char>) {
    state_class_of(lowercase(state))
}

fn vm_state_class_exec(state: &Vec<char>) -> (r: (Vec<char>, Vec<char>))
    ensures
        (r.0@, r.1@) == vm_state_class(state@),
        is_ascii_text(state@) ==> (r.0@, r.1@) == state_class_of(ascii_lowercase(state@)),
{
    let s = to_lowercase(state);
    if contains_str(&s, "running") || contains_str(&s, "idle") {
        (str_chars("running"), str_chars("Running"))
    } else if contains_str(&s, "paused") || contains_str(&s, "suspended") {
        (str_chars("paused"), str_chars("Paused"))
    } else if contains_str(&s, "shut off") || contains_str(&s, "shutoff") || contains_str(
        &s,
        "crashed",
    ) || s.len() == 0 {
        (str_chars("stopped"), str_chars("Stopped"))
    } else {
        (str_chars("other"), s)
    }
}

/// Classifies a VM state: `running` (running or idle), `paused` (paused or
/// suspended), `stopped` (shut off, crashed or empty) or `other`, with
/// the label to show; an `other` state is shown as its lower-case text,
/// which is never empty. Of ASCII text the lower-case form is spelled out.
pub fn classify_vm_state(state: &str) -> (r: (String, String))
    ensures
        (r.0@, r.1@) == vm_state_class(state@),
        is_ascii_text(state@) ==> (r.0@, r.1@) == state_class_of(ascii_lowercase(state@)),
        r.0@ == "running"@ || r.0@ == "paused"@ || r.0@ == "stopped"@ || r.0@ == "other"@,
        r.0@ == "other"@ ==> r.1@ == lowercase(state@) && state@.len() > 0,
{
    let v = str_chars(state);
    let (k, l) = vm_state_class_exec(&v);
    proof {
        reveal_strlit("other");
        reveal_strlit("stopped");
        reveal_strlit("running");
        reveal_strlit("paused");
        assert("running"@.len() != "other"@.len());
        assert("paused"@.len() != "other"@.len());
        assert("stopped"@.len() != "other"@.len());
        if v@.len() == 0 {
            assert(is_ascii_text(v@));
            assert(ascii_lowercase(v@) =~= Seq::<char>::empty());
            let x = ascii_lowercase(v@);
            assert(state_class_of(x).0 != "other"@) by {
                assert("running"@.len() != "other"@.len());
                assert("paused"@.len() != "other"@.len());
                assert("stopped"@.len() != "other"@.len());
            }
        }
    }
    (chars_string(&k), chars_string(&l))
}

/// Lower-casing an ASCII state first changes nothing: the state and its
/// lower-case form are classified alike.
pub proof fn lemma_state_class_ignores_case(state: Seq<char>)
    requires
        is_ascii_text(state),
    ensures
        is_ascii_text(ascii_lowercase(state)),
        state_class_of(ascii_lowercase(ascii_lowercase(state))) == state_class_of(
            ascii_lowercase(state),
        ),
{
    lemma_ascii_lowercase_idempotent(state);
}

/// What `dominfo` keeps while it reads: the state text, the CPU count and
/// the maximum memory in KiB.
pub open spec fn dominfo_line(acc: (Seq<char>, u32, u64), line: Seq<char>) -> (Seq<char>, u32, u64) {
    match split_once(trim(line), ':') {
        Some((k, v)) => {
            let key = lowercase(trim(k));
            let value = trim(v);
            if key == "state"@ {
                (lowercase(value), acc.1, acc.2)
            } else if key == "cpu(s)"@ {
                (acc.0, u32_or_zero(value), acc.2)
            } else if key == "max memory"@ {
                if words(value).len() > 0 {
                    (acc.0, acc.1, u64_or_zero(words(value)[0]))
                } else {
                    acc
                }
            } else {
                acc
            }
        },
        None => acc,
    }
}

/// A line that is not a `Max memory` line: it has no `:`, or its trimmed,
/// lower-cased key is something else.
pub open spec fn not_max_memory_line(line: Seq<char>) -> bool {
    match split_once(trim(line), ':') {
        Some((k, _)) => lowercase(trim(k)) != "max memory"@,
        None => true,
    }
}

proof fn lemma_dominfo_fold_memory_insert(x: Seq<Seq<char>>, l: Seq<char>, y: Seq<Seq<char>>)
    requires
        not_max_memory_line(l),
    ensures
        dominfo_fold(x + seq![l] + y).2 == dominfo_fold(x + y).2,
    decreases y.len(),
{
    if y.len() == 0 {
        assert(x + seq![l] + y =~= x.push(l));
        assert(x + y =~= x);
        assert((x + seq![l] + y).drop_last() =~= x);
    } else {
        let z = x + seq![l] + y;
        let w = x + y;
        assert(z.drop_last() =~= x + seq![l] + y.drop_last());
        assert(w.drop_last() =~= x + y.drop_last());
        assert(z.last() == y.last() && w.last() == y.last());
        lemma_dominfo_fold_memory_insert(x, l, y.drop_last());
    }
}

/// The memory that a `dominfo` report gives comes from its `Max memory`
/// lines alone: inserting any other line (such as `Used memory: ...`)
/// anywhere between the report's lines leaves the memory unchanged.
pub proof fn lemma_dominfo_memory_from_max_only(before: Seq<char>, line: Seq<char>, after: Seq<char>)
    requires
        before.len() == 0 || before.last() == '\n',
        !line.contains('\n'),
        !line.contains('\r'),
        not_max_memory_line(line),
    ensures
        dominfo(before + line + seq!['\n'] + after).3 == dominfo(before + after).3,
{
    let l = line + seq!['\n'];
    lemma_lines_one(line);
    assert(strip_cr(line) == line) by {
        if line.len() > 0 && line.last() == '\r' {
            assert(line.contains('\r'));
        }
    }
    lemma_lines_append(l, after);
    let x = lines(before);
    if before.len() == 0 {
        assert(before + line + seq!['\n'] + after =~= l + after);
        assert(before + after =~= after);
        assert(x =~= Seq::<Seq<char>>::empty());
        assert(lines(l + after) =~= x + seq![line] + lines(after));
        assert(lines(after) =~= x + lines(after));
    } else {
        assert(before + line + seq!['\n'] + after =~= before + (l + after));
        lemma_lines_append(before, l + after);
        lemma_lines_append(before, after);
        assert(lines(before + (l + after)) =~= x + seq![line] + lines(after));
    }
    lemma_dominfo_fold_memory_insert(x, line, lines(after));
}

/// A line that `dominfo` does not read: it has no `:`, or its trimmed,
/// lower-cased key is none of `state`, `cpu(s)` and `max memory`.
pub open spec fn unread_dominfo_line(line: Seq<char>) -> bool {
    match split_once(trim(line), ':') {
        Some((k, _)) => {
            let key = lowercase(trim(k));
            key != "state"@ && key != "cpu(s)"@ && key != "max memory"@
        },
        None => true,
    }
}

proof fn lemma_dominfo_fold_insert(x: Seq<Seq<char>>, l: Seq<char>, y: Seq<Seq<char>>)
    requires
        unread_dominfo_line(l),
    ensures
        dominfo_fold(x + seq![l] + y) == dominfo_fold(x + y),
    decreases y.len(),
{
    if y.len() == 0 {
        assert(x + seq![l] + y =~= x.push(l));
        assert(x + y =~= x);
        assert((x + seq![l] + y).drop_last() =~= x);
    } else {
        let z = x + seq![l] + y;
        let w = x + y;
        assert(z.drop_last() =~= x + seq![l] + y.drop_last());
        assert(w.drop_last() =~= x + y.drop_last());
        assert(z.last() == y.last() && w.last() == y.last());
        lemma_dominfo_fold_insert(x, l, y.drop_last());
    }
}

/// A `dominfo` report is read from its `State`, `CPU(s)` and `Max memory`
/// lines alone: inserting any other line anywhere between its lines leaves
/// the state, the CPU count and the memory unchanged.
pub proof fn lemma_dominfo_reads_three_keys(before: Seq<char>, line: Seq<char>, after: Seq<char>)
    requires
        before.len() == 0 || before.last() == '\n',
        !line.contains('\n'),
        !line.contains('\r'),
        unread_dominfo_line(line),
    ensures
        dominfo(before + line + seq!['\n'] + after) == dominfo(before + after),
{
    let l = line + seq!['\n'];
    lemma_lines_one(line);
    assert(strip_cr(line) == line) by {
        if line.len() > 0 && line.last() == '\r' {
            assert(line.contains('\r'));
        }
    }
    lemma_lines_append(l, after);
    let x = lines(before);
    if before.len() == 0 {
        assert(before + line + seq!['\n'] + after =~= l + after);
        assert(before + after =~= after);
        assert(x =~= Seq::<Seq<char>>::empty());
        assert(lines(l + after) =~= x + seq![line] + lines(after));
        assert(lines(after) =~= x + lines(after));
    } else {
        assert(before + line + seq!['\n'] + after =~= before + (l + after));
        lemma_lines_append(before, l + after);
        lemma_lines_append(before, after);
        assert(lines(before + (l + after)) =~= x + seq![line] + lines(after));
    }
    lemma_dominfo_fold_insert(x, line, lines(after));
}

/// `s.parse::<u32>().unwrap_or(0)`.
pub open spec fn u32_or_zero(s: Seq<char>) -> u32 {
    match unsigned_value(s) {
        Some(v) => if v <= u32::MAX {
            v as u32
        } else {
            0
        },
        None => 0,
    }
}

/// `s.parse::<u64>().unwrap_or(0)`.
pub open spec fn u64_or_zero(s: Seq<char>) -> u64 {
    match unsigned_value(s) {
        Some(v) => if v <= u64::MAX {
            v as u64
        } else {
            0
        },
        None => 0,
    }
}

pub open spec fn dominfo_fold(ls: Seq<Seq<char>>) -> (Seq<char>, u32, u64)
    decreases ls.len(),
{
    if ls.len() == 0 {
        (Seq::empty(), 0, 0)
    } else {
        dominfo_line(dominfo_fold(ls.drop_last()), ls.last())
    }
}

/// The state key, state label, CPU count and maximum memory in MiB that a
/// `virsh dominfo` report gives.
pub open spec fn dominfo(text: Seq<char>) -> (Seq<char>, Seq<char>, u32, u32) {
    let (state, vcpus, kib) = dominfo_fold(lines(text));
    let (key, label) = vm_state_class(state);
    (key, label, vcpus, (kib / 1024) as u32)
}

fn u32_or_zero_exec(s: &Vec<char>) -> (r: u32)
    ensures
        r == u32_or_zero(s@),
{
    match parse_u32(s) {
        Some(v) => v,
        None => 0,
    }
}

fn u64_or_zero_exec(s: &Vec<char>) -> (r: u64)
    ensures
        r == u64_or_zero(s@),
{
    match parse_u64(s) {
        Some(v) => v,
        None => 0,
    }
}

fn dominfo_exec(text: &Vec<char>) -> (r: (Vec<char>, Vec<char>, u32, u32))
    ensures
        (r.0@, r.1@, r.2, r.3) == dominfo(text@),
{
    let ls = lines_exec(text);
    let mut state: Vec<char> = Vec::new();
    let mut vcpus: u32 = 0;
    let mut kib: u64 = 0;
    let mut i: usize = 0;
    while i < ls.len()
        invariant
            i <= ls.len(),
            (state@, vcpus, kib) == dominfo_fold(views(ls@).take(i as int)),
        decreases ls.len() - i,
    {
        proof {
            assert(views(ls@).take(i + 1).drop_last() =~= views(ls@).take(i as int));
        }
        let line = trim_exec(&ls[i]);
        match split_once_exec(&line, ':') {
            Some((k, v)) => {
                let kt = trim_exec(&k);
                let key = to_lowercase(&kt);
                let value = trim_exec(&v);
                if eq_str(&key, "state") {
                    state = to_lowercase(&value);
                } else if eq_str(&key, "cpu(s)") {
                    vcpus = u32_or_zero_exec(&value);
                } else if eq_str(&key, "max memory") {
                    let ws = words_exec(&value);
                    if ws.len() > 0 {
                        kib = u64_or_zero_exec(&ws[0]);
                    }
                }
            },
            None => {},
        }
        i = i + 1;
    }
    assert(views(ls@).take(ls.len() as int) =~= views(ls@));
    let (key, label) = vm_state_class_exec(&state);
    (key, label, vcpus, (kib / 1024) as u32)
}

/// Reads a `virsh dominfo` report: the state class and label (from the
/// `State` line), the CPU count (`CPU(s)`, 0 where it does not parse) and
/// the maximum memory in MiB (`Max memory` in KiB, divided by 1024).
pub fn parse_dominfo(text: &str) -> (r: (String, String, u32, u32))
    ensures
        (r.0@, r.1@, r.2, r.3) == dominfo(text@),
{
    let v = str_chars(text);
    let (k, l, c, m) = dominfo_exec(&v);
    (chars_string(&k), chars_string(&l), c, m)
}

/// The trimmed non-empty lines of `ls`, in order.
pub open spec fn nonempty_trimmed(ls: Seq<Seq<char>>) -> Seq<Seq<char>>
    decreases ls.len(),
{
    if ls.len() == 0 {
        Seq::empty()
    } else if trim(ls.last()).len() > 0 {
        nonempty_trimmed(ls.drop_last()).push(trim(ls.last()))
    } else {
        nonempty_trimmed(ls.drop_last())
    }
}

/// The VM names that `virsh list --all --name` prints: its trimmed,
/// non-empty lines.
pub fn vm_names(text: &str) -> (r: Vec<String>)
    ensures
        r@.map_values(|s: String| s@) == nonempty_trimmed(lines(text@)),
{
    let v = str_chars(text);
    let ls = lines_exec(&v);
    let mut out: Vec<String> = Vec::new();
    let mut i: usize = 0;
    while i < ls.len()
        invariant
            i <= ls.len(),
            out@.map_values(|s: String| s@) == nonempty_trimmed(views(ls@).take(i as int)),
        decreases ls.len() - i,
    {
        proof {
            assert(views(ls@).take(i + 1).drop_last() =~= views(ls@).take(i as int));
        }
        let t = trim_exec(&ls[i]);
        if t.len() > 0 {
            let s = chars_string(&t);
            let ghost before = out@;
            out.push(s);
            proof {
                assert(out@.map_values(|s: String| s@) =~= before.map_values(|s: String| s@).push(
                    t@,
                ));
            }
        }
        i = i + 1;
    }
    assert(views(ls@).take(ls.len() as int) =~= views(ls@));
    out
}

/// The counts and the compact listing of the VMs, for the VM frame.
pub struct VmMetrics {
    pub running: u32,
    pub stopped: u32,
    pub paused: u32,
    pub other: u32,
    pub compact: String,
}

/// The most VMs that the summary reports.
pub open spec fn vm_report_limit() -> int {
    10
}

impl VmMetrics {
    /// A summary of at most as many VMs as one reports.
    pub open spec fn within_limit(&self) -> bool {
        self.running + self.stopped + self.paused + self.other <= vm_report_limit()
    }
}

/// The compact entry of one VM: `name|key|cpus|mib|label`, the name with
/// separators replaced and cut to 24 bytes.
pub open spec fn vm_entry(name: Seq<char>, info: Seq<char>) -> Seq<char> {
    let (key, label, vcpus, mib) = dominfo(info);
    cut_bytes(clean_name(name), 24) + seq!['|'] + key + seq!['|'] + dec_text(vcpus as nat) + seq![
        '|',
    ] + dec_text(mib as nat) + seq!['|'] + label
}

/// The reported VMs (those whose `dominfo` ran), with their names.
pub open spec fn vm_reports(names: Seq<Seq<char>>, infos: Seq<Option<Seq<char>>>) -> Seq<
    (Seq<char>, Seq<char>),
>
    decreases infos.len(),
{
    if infos.len() == 0 {
        Seq::empty()
    } else {
        let rest = vm_reports(names, infos.drop_last());
        match infos.last() {
            Some(info) => rest.push((names[infos.len() - 1], info)),
            None => rest,
        }
    }
}

/// How many of the reports have the state class `key`.
pub open spec fn count_class(reports: Seq<(Seq<char>, Seq<char>)>, key: Seq<char>) -> nat
    decreases reports.len(),
{
    if reports.len() == 0 {
        0
    } else {
        count_class(reports.drop_last(), key) + if dominfo(reports.last().1).0 == key {
            1nat
        } else {
            0nat
        }
    }
}

pub open spec fn report_entries(reports: Seq<(Seq<char>, Seq<char>)>) -> Seq<Seq<char>> {
    reports.map_values(|r: (Seq<char>, Seq<char>)| vm_entry(r.0, r.1))
}

pub open spec fn opt_views(v: Seq<Option<String>>) -> Seq<Option<Seq<char>>> {
    v.map_values(
        |o: Option<String>|
            match o {
                Some(s) => Some(s@),
                None => None,
            },
    )
}

/// The summary that the VM frame carries, over the listed names and the
/// `dominfo` reports of the first of them (`None` where it did not run).
pub open spec fn vm_summary(names: Seq<Seq<char>>, infos: Seq<Option<Seq<char>>>) -> (
    nat,
    nat,
    nat,
    nat,
    Seq<char>,
) {
    if names.len() == 0 {
        (0, 0, 0, 0, Seq::empty())
    } else {
        let reports = vm_reports(names, infos);
        let running = count_class(reports, "running"@);
        let stopped = count_class(reports, "stopped"@);
        let paused = count_class(reports, "paused"@);
        let other = (reports.len() - running - stopped - paused) as nat;
        let compact = if reports.len() == 0 {
            "-"@
        } else {
            join(report_entries(reports), ';')
        };
        (running, stopped, paused, other, compact)
    }
}

/// Every reported name can be cut to 24 bytes (byte 24 does not fall
/// inside a character).
pub open spec fn vm_names_cuttable(names: Seq<Seq<char>>, infos: Seq<Option<Seq<char>>>) -> bool {
    forall|i: int|
        0 <= i < infos.len() && #[trigger] infos[i] is Some ==> can_cut(clean_name(names[i]), 24)
}

proof fn lemma_class_keys_distinct()
    ensures
        "running"@ != "stopped"@,
        "running"@ != "paused"@,
        "stopped"@ != "paused"@,
{
    reveal_strlit("running");
    reveal_strlit("stopped");
    reveal_strlit("paused");
    assert("running"@[0] != "stopped"@[0]);
    assert("running"@[0] != "paused"@[0]);
    assert("stopped"@[0] != "paused"@[0]);
}

proof fn lemma_count_class_le(reports: Seq<(Seq<char>, Seq<char>)>)
    ensures
        count_class(reports, "running"@) + count_class(reports, "stopped"@) + count_class(
            reports,
            "paused"@,
        ) <= reports.len(),
    decreases reports.len(),
{
    lemma_class_keys_distinct();
    if reports.len() > 0 {
        lemma_count_class_le(reports.drop_last());
    }
}

proof fn lemma_vm_reports_len(names: Seq<Seq<char>>, infos: Seq<Option<Seq<char>>>)
    ensures
        vm_reports(names, infos).len() <= infos.len(),
    decreases infos.len(),
{
    if infos.len() > 0 {
        lemma_vm_reports_len(names, infos.drop_last());
    }
}

/// Summarizes the VMs: `names` as `vm_names` lists them, and `infos[i]`
/// the text of `virsh dominfo` for `names[i]` (`None` where it could not
/// run) for the first ten names. Counts each reported VM under its state
/// class and lists each as `name|key|cpus|mib|label`, `;`-separated (`-`
/// where none was reported); all zero and empty where no name is listed.
pub fn summarize_vms(names: &Vec<String>, infos: &Vec<Option<String>>) -> (r: VmMetrics)
    requires
        infos.len() == if names.len() < 10 {
            names.len() as int
        } else {
            10
        },
        vm_names_cuttable(names@.map_values(|s: String| s@), opt_views(infos@)),
    ensures
        ({
            let (running, stopped, paused, other, compact) = vm_summary(
                names@.map_values(|s: String| s@),
                opt_views(infos@),
            );
            &&& r.running == running
            &&& r.stopped == stopped
            &&& r.paused == paused
            &&& r.other == other
            &&& r.compact@ == compact
        }),
        r.running + r.stopped + r.paused + r.other == vm_reports(
            names@.map_values(|s: String| s@),
            opt_views(infos@),
        ).len(),
        r.running + r.stopped + r.paused + r.other <= vm_report_limit(),
{
    let ghost nv = names@.map_values(|s: String| s@);
    let ghost iv = opt_views(infos@);
    if names.len() == 0 {
        return VmMetrics { running: 0, stopped: 0, paused: 0, other: 0, compact: String::new() };
    }
    let mut running: u32 = 0;
    let mut stopped: u32 = 0;
    let mut paused: u32 = 0;
    let mut other: u32 = 0;
    let mut parts: Vec<Vec<char>> = Vec::new();
    let mut i: usize = 0;
    while i < infos.len()
        invariant
            i <= infos.len() <= 10,
            infos.len() <= names.len(),
            nv == names@.map_values(|s: String| s@),
            iv == opt_views(infos@),
            vm_names_cuttable(nv, iv),
            running == count_class(vm_reports(nv, iv.take(i as int)), "running"@),
            stopped == count_class(vm_reports(nv, iv.take(i as int)), "stopped"@),
            paused == count_class(vm_reports(nv, iv.take(i as int)), "paused"@),
            running + stopped + paused + other == vm_reports(nv, iv.take(i as int)).len(),
            views(parts@) == report_entries(vm_reports(nv, iv.take(i as int))),
        decreases infos.len() - i,
    {
        let ghost before = vm_reports(nv, iv.take(i as int));
        proof {
            assert(iv.take(i + 1).drop_last() =~= iv.take(i as int));
            lemma_vm_reports_len(nv, iv.take(i as int));
        }
        match &infos[i] {
            Some(info) => {
                let it = str_chars(info.as_str());
                let (key, label, vcpus, mib) = dominfo_exec(&it);
                if eq_str(&key, "running") {
                    running = running + 1;
                } else if eq_str(&key, "stopped") {
                    stopped = stopped + 1;
                } else if eq_str(&key, "paused") {
                    paused = paused + 1;
                } else {
                    other = other + 1;
                }
                let name = str_chars(names[i].as_str());
                let clean = clean_name_exec(&name);
                proof {
                    assert(iv[i as int] is Some);
                }
                let mut part = cut_bytes_exec(&clean, 24);
                part.push('|');
                push_all(&mut part, &key);
                part.push('|');
                push_dec(&mut part, vcpus as u64);
                part.push('|');
                push_dec(&mut part, mib as u64);
                part.push('|');
                push_all(&mut part, &label);
                proof {
                    let reports = vm_reports(nv, iv.take(i + 1));
                    assert(iv.take(i + 1).last() == Some(it@));
                    assert(nv[i as int] == name@);
                    assert(reports == before.push((name@, it@)));
                    assert(reports.drop_last() =~= before);
                    assert(part@ =~= vm_entry(name@, it@));
                    lemma_views_push(parts@, part);
                    assert(report_entries(reports) =~= report_entries(before).push(part@));
                    lemma_class_keys_distinct();
                }
                parts.push(part);
            },
            None => {
                proof {
                    assert(vm_reports(nv, iv.take(i + 1)) == before);
                }
            },
        }
        i = i + 1;
    }
    proof {
        assert(iv.take(infos.len() as int) =~= iv);
        lemma_vm_reports_len(nv, iv);
    }
    let compact = if parts.len() == 0 {
        str_chars("-")
    } else {
        join_exec(&parts, ';')
    };
    VmMetrics { running, stopped, paused, other, compact: chars_string(&compact) }
}


/// Whether every VM name that `summarize_vms` would report can be cut to
/// 24 bytes, which it needs.
pub fn vm_names_can_be_cut(names: &Vec<String>, infos: &Vec<Option<String>>) -> (b: bool)
    requires
        infos.len() <= names.len(),
    ensures
        b == vm_names_cuttable(names@.map_values(|s: String| s@), opt_views(infos@)),
{
    let ghost nv = names@.map_values(|s: String| s@);
    let ghost iv = opt_views(infos@);
    let mut i: usize = 0;
    while i < infos.len()
        invariant
            i <= infos.len() <= names.len(),
            nv == names@.map_values(|s: String| s@),
            iv == opt_views(infos@),
            forall|j: int|
                0 <= j < i && #[trigger] iv[j] is Some ==> can_cut(clean_name(nv[j]), 24),
        decreases infos.len() - i,
    {
        if infos[i].is_some() {
            let name = str_chars(names[i].as_str());
            let clean = clean_name_exec(&name);
            if !can_cut_exec(&clean, 24) {
                assert(iv[i as int] is Some);
                return false;
            }
        }
        i = i + 1;
    }
    true
}

/// The arguments of `virsh` that list every VM by name, with `-c<uri>`
/// first where a connection URI is given.
pub open spec fn list_args(uri: Option<Seq<char>>) -> Seq<Seq<char>> {
    let base = seq!["list"@, "--all"@, "--name"@];
    match uri {
        Some(u) => seq!["-c"@ + u].add(base),
        None => base,
    }
}

/// The arguments of `virsh` that describe the VM `name`, with `-c` and
/// the URI first where one is given.
pub open spec fn dominfo_args(uri: Option<Seq<char>>, name: Seq<char>) -> Seq<Seq<char>> {
    let base = seq!["dominfo"@, name];
    match uri {
        Some(u) => seq!["-c"@, u].add(base),
        None => base,
    }
}

pub open spec fn string_views(v: Seq<String>) -> Seq<Seq<char>> {
    v.map_values(|s: String| s@)
}

pub open spec fn opt_str_view(o: Option<&str>) -> Option<Seq<char>> {
    match o {
        Some(s) => Some(s@),
        None => None,
    }
}

fn push_text(v: &mut Vec<String>, t: &str)
    ensures
        string_views(final(v)@) == string_views(old(v)@).push(t@),
{
    let ghost before = v@;
    v.push(t.to_string());
    assert(string_views(v@) =~= string_views(before).push(t@));
}

/// The `virsh` arguments that list the VMs: `-c<uri>` where a URI is
/// given, then `list --all --name`.
pub fn virsh_list_args(uri: Option<&str>) -> (r: Vec<String>)
    ensures
        string_views(r@) == list_args(opt_str_view(uri)),
{
    let mut r: Vec<String> = Vec::new();
    match uri {
        Some(u) => {
            let mut c = str_chars("-c");
            let uc = str_chars(u);
            push_all(&mut c, &uc);
            let cs = chars_string(&c);
            let ghost before = r@;
            r.push(cs);
            assert(string_views(r@) =~= string_views(before).push(c@));
        },
        None => {},
    }
    let ghost head = string_views(r@);
    push_text(&mut r, "list");
    push_text(&mut r, "--all");
    push_text(&mut r, "--name");
    proof {
        reveal_strlit("-c");
        assert(string_views(r@) =~= head + seq!["list"@, "--all"@, "--name"@]);
        match uri {
            Some(u) => {
                assert(head =~= seq!["-c"@ + u@]);
            },
            None => {
                assert(head =~= Seq::<Seq<char>>::empty());
            },
        }
    }
    r
}

/// The `virsh` arguments that describe one VM: `-c <uri>` where a URI is
/// given, then `dominfo <name>`.
pub fn virsh_dominfo_args(uri: Option<&str>, name: &str) -> (r: Vec<String>)
    ensures
        string_views(r@) == dominfo_args(opt_str_view(uri), name@),
{
    let mut r: Vec<String> = Vec::new();
    assert(string_views(r@) =~= Seq::<Seq<char>>::empty());
    match uri {
        Some(u) => {
            push_text(&mut r, "-c");
            push_text(&mut r, u);
        },
        None => {},
    }
    let ghost head = string_views(r@);
    push_text(&mut r, "dominfo");
    push_text(&mut r, name);
    proof {
        assert(string_views(r@) =~= head + seq!["dominfo"@, name@]);
        match uri {
            Some(u) => {
                assert(head =~= seq!["-c"@, u@]);
            },
            None => {
                assert(head =~= Seq::<Seq<char>>::empty());
            },
        }
    }
    r
}

} // verus!
