//! Containers as the Docker engine lists them (`GET /containers/json`):
//! the counts and the compact listing that the Docker frame carries.

use vstd::prelude::*;
use crate::text::{
    can_cut, can_cut_exec, occurs_at, chars_string, clean_name, clean_name_exec, contains, contains_str,
    cut_bytes, cut_bytes_exec, find, find_from, join, join_exec, lemma_find_from,
    lemma_views_push, lowercase, push_str, slice, split_on, split_on_exec, str_chars,
    to_lowercase, trim_start_char, trim_start_char_exec, views,
};

verus! {

/// The most containers that the summary reports.
pub open spec fn docker_report_limit() -> int {
    10
}

impl DockerMetrics {
    /// A summary of at most as many containers as one reports, of which no
    /// more are unhealthy than are listed.
    pub open spec fn within_limit(&self) -> bool {
        &&& self.running + self.stopped <= docker_report_limit()
        &&& self.unhealthy <= self.running + self.stopped
    }
}

/// The text of each listed container: what follows each `{"Id":` marker,
/// for the first ten of them.
pub open spec fn docker_chunks(text: Seq<char>) -> Seq<Seq<char>> {
    let rest = split_on(text, "{\"Id\":"@).drop_first();
    rest.take(
        if rest.len() < 10 {
            rest.len() as int
        } else {
            10
        },
    )
}

/// A container is running when its text holds `"running"`, in any case.
pub open spec fn chunk_running(c: Seq<char>) -> bool {
    contains(lowercase(c), "\"running\""@)
}

/// A container is unhealthy when its text holds `unhealthy`, in any case.
pub open spec fn chunk_unhealthy(c: Seq<char>) -> bool {
    contains(lowercase(c), "unhealthy"@)
}

/// The container's first name: the text from `"Names":["` up to the next
/// `"`, without leading `/`.
pub open spec fn chunk_name(c: Seq<char>) -> Option<Seq<char>> {
    match find_from(c, "\"Names\":[\""@, 0) {
        Some(ns) => {
            let rest = c.skip(ns + 10);
            match find_from(rest, seq!['"'], 0) {
                Some(ne) => Some(trim_start_char(rest.take(ne), '/')),
                None => None,
            }
        },
        None => None,
    }
}

/// The compact entry of a named container: `name|running` or
/// `name|stopped`, the name with separators replaced and cut to 24 bytes.
pub open spec fn chunk_entry(name: Seq<char>, c: Seq<char>) -> Seq<char> {
    cut_bytes(clean_name(name), 24) + seq!['|'] + if chunk_running(c) {
        "running"@
    } else {
        "stopped"@
    }
}

pub open spec fn count_running(cs: Seq<Seq<char>>) -> nat
    decreases cs.len(),
{
    if cs.len() == 0 {
        0
    } else {
        count_running(cs.drop_last()) + if chunk_running(cs.last()) {
            1nat
        } else {
            0nat
        }
    }
}

pub open spec fn count_unhealthy(cs: Seq<Seq<char>>) -> nat
    decreases cs.len(),
{
    if cs.len() == 0 {
        0
    } else {
        count_unhealthy(cs.drop_last()) + if chunk_unhealthy(cs.last()) {
            1nat
        } else {
            0nat
        }
    }
}

pub open spec fn chunk_entries(cs: Seq<Seq<char>>) -> Seq<Seq<char>>
    decreases cs.len(),
{
    if cs.len() == 0 {
        Seq::empty()
    } else {
        let rest = chunk_entries(cs.drop_last());
        match chunk_name(cs.last()) {
            Some(n) => rest.push(chunk_entry(n, cs.last())),
            None => rest,
        }
    }
}

/// Each named container's name can be cut to 24 bytes.
pub open spec fn docker_names_cuttable(text: Seq<char>) -> bool {
    forall|i: int|
        0 <= i < docker_chunks(text).len() ==> match chunk_name(#[trigger] docker_chunks(text)[i]) {
            Some(n) => can_cut(clean_name(n), 24),
            None => true,
        }
}

/// The counts and the compact listing of the containers, for the Docker frame.
pub struct DockerMetrics {
    pub running: u32,
    pub stopped: u32,
    pub unhealthy: u32,
    pub compact: String,
}

proof fn lemma_counts_le(cs: Seq<Seq<char>>)
    ensures
        count_running(cs) <= cs.len(),
        count_unhealthy(cs) <= cs.len(),
    decreases cs.len(),
{
    if cs.len() > 0 {
        lemma_counts_le(cs.drop_last());
    }
}

proof fn lemma_split_on_nonempty(s: Seq<char>, p: Seq<char>)
    ensures
        split_on(s, p).len() >= 1,
{
    if p.len() > 0 {
        match find_from(s, p, 0) {
            Some(i) => {},
            None => {},
        }
    }
}

/// The listed containers (at most ten), as `docker_chunks`, computed.
fn docker_chunks_exec(text: &Vec<char>) -> (r: Vec<Vec<char>>)
    ensures
        views(r@) == docker_chunks(text@),
{
    let pat = str_chars("{\"Id\":");
    proof {
        reveal_strlit("{\"Id\":");
    }
    let pieces = split_on_exec(text, &pat);
    let ghost rest = views(pieces@).drop_first();
    proof {
        lemma_split_on_nonempty(text@, pat@);
    }
    let mut out: Vec<Vec<char>> = Vec::new();
    let mut i: usize = 1;
    while i < pieces.len() && i <= 10
        invariant
            1 <= i <= pieces.len(),
            i <= 11,
            rest == views(pieces@).drop_first(),
            views(out@) == rest.take(i - 1),
        decreases pieces.len() - i,
    {
        let c = slice(&pieces[i], 0, pieces[i].len());
        proof {
            assert(c@ =~= pieces@[i as int]@);
            lemma_views_push(out@, c);
            assert(rest.take(i as int) =~= rest.take(i - 1).push(c@));
        }
        out.push(c);
        i = i + 1;
    }
    out
}

/// The first name of a listed container, as `chunk_name`.
fn chunk_name_exec(c: &Vec<char>) -> (r: Option<Vec<char>>)
    ensures
        match r {
            Some(n) => chunk_name(c@) == Some(n@),
            None => chunk_name(c@) is None,
        },
{
    let pat = str_chars("\"Names\":[\"");
    let quote = str_chars("\"");
    proof {
        reveal_strlit("\"Names\":[\"");
        reveal_strlit("\"");
        assert(quote@ =~= seq!['"']);
        assert(pat@.len() == 10);
    }
    match find(c, &pat, 0) {
        Some(ns) => {
            proof {
                lemma_find_from(c@, pat@, 0);
                assert(occurs_at(c@, pat@, ns as int));
                assert(ns + 10 <= c@.len());
                assert(ns + 10 <= c.len());
            }
            let rest = slice(c, ns + 10, c.len());
            assert(rest@ =~= c@.skip(ns + 10));
            match find(&rest, &quote, 0) {
                Some(ne) => {
                    proof {
                        lemma_find_from(rest@, quote@, 0);
                    }
                    let nm = slice(&rest, 0, ne);
                    assert(nm@ =~= rest@.take(ne as int));
                    Some(trim_start_char_exec(&nm, '/'))
                },
                None => None,
            }
        },
        None => None,
    }
}

/// Whether every named container's name can be cut to 24 bytes, which
/// `docker_metrics` needs.
pub fn docker_names_can_be_cut(text: &str) -> (b: bool)
    ensures
        b == docker_names_cuttable(text@),
{
    let t = str_chars(text);
    let cs = docker_chunks_exec(&t);
    let mut i: usize = 0;
    while i < cs.len()
        invariant
            i <= cs.len(),
            views(cs@) == docker_chunks(t@),
            t@ == text@,
            forall|j: int|
                0 <= j < i ==> match chunk_name(#[trigger] docker_chunks(t@)[j]) {
                    Some(n) => can_cut(clean_name(n), 24),
                    None => true,
                },
        decreases cs.len() - i,
    {
        assert(views(cs@)[i as int] == cs@[i as int]@);
        match chunk_name_exec(&cs[i]) {
            Some(n) => {
                let cn = clean_name_exec(&n);
                if !can_cut_exec(&cn, 24) {
                    return false;
                }
            },
            None => {},
        }
        i = i + 1;
    }
    true
}

/// Summarizes the container listing: the first ten containers, each
/// counted as running (its text holds `"running"`, in any case) or
/// stopped, and as unhealthy where it holds `unhealthy`; each named one
/// listed as `name|state`, `;`-separated (`-` where none is named).
pub fn docker_metrics(text: &str) -> (r: DockerMetrics)
    requires
        docker_names_cuttable(text@),
    ensures
        r.running == count_running(docker_chunks(text@)),
        r.running + r.stopped == docker_chunks(text@).len(),
        r.unhealthy == count_unhealthy(docker_chunks(text@)),
        r.compact@ == if chunk_entries(docker_chunks(text@)).len() == 0 {
            "-"@
        } else {
            join(chunk_entries(docker_chunks(text@)), ';')
        },
        r.running + r.stopped <= docker_report_limit(),
        r.unhealthy <= r.running + r.stopped,
{
    let t = str_chars(text);
    let cs = docker_chunks_exec(&t);
    let ghost cv = views(cs@);
    assert(cv.len() == cs@.len());
    assert(cv.len() <= 10);
    let mut running: u32 = 0;
    let mut stopped: u32 = 0;
    let mut unhealthy: u32 = 0;
    let mut parts: Vec<Vec<char>> = Vec::new();
    let mut i: usize = 0;
    while i < cs.len()
        invariant
            i <= cs.len() <= 10,
            cv == views(cs@),
            cv == docker_chunks(t@),
            t@ == text@,
            docker_names_cuttable(t@),
            running == count_running(cv.take(i as int)),
            running + stopped == i,
            unhealthy == count_unhealthy(cv.take(i as int)),
            views(parts@) == chunk_entries(cv.take(i as int)),
        decreases cs.len() - i,
    {
        let c = &cs[i];
        proof {
            assert(cv.take(i + 1).drop_last() =~= cv.take(i as int));
            assert(cv.take(i + 1).last() == c@);
            lemma_counts_le(cv.take(i as int));
        }
        let lower = to_lowercase(c);
        let is_running = contains_str(&lower, "\"running\"");
        if is_running {
            running = running + 1;
        } else {
            stopped = stopped + 1;
        }
        if contains_str(&lower, "unhealthy") {
            unhealthy = unhealthy + 1;
        }
        match chunk_name_exec(c) {
            Some(n) => {
                let cn = clean_name_exec(&n);
                proof {
                    assert(docker_chunks(t@)[i as int] == c@);
                }
                let mut part = cut_bytes_exec(&cn, 24);
                part.push('|');
                if is_running {
                    push_str(&mut part, "running");
                } else {
                    push_str(&mut part, "stopped");
                }
                proof {
                    assert(part@ =~= chunk_entry(n@, c@));
                    lemma_views_push(parts@, part);
                }
                parts.push(part);
            },
            None => {},
        }
        i = i + 1;
    }
    proof {
        assert(cv.take(cs.len() as int) =~= cv);
        lemma_counts_le(cv);
    }
    let compact = if parts.len() == 0 {
        str_chars("-")
    } else {
        join_exec(&parts, ';')
    };
    DockerMetrics { running, stopped, unhealthy, compact: chars_string(&compact) }
}

/// The container summary from the output of the Docker query (`None`
/// where `curl` could not be run or failed): nothing listed on a failure.
pub fn docker_summary(output: Option<&str>) -> (r: DockerMetrics)
    requires
        output matches Some(t) ==> docker_names_cuttable(t@),
    ensures
        r.within_limit(),
        match output {
            Some(t) => {
                &&& r.running == count_running(docker_chunks(t@))
                &&& r.running + r.stopped == docker_chunks(t@).len()
                &&& r.unhealthy == count_unhealthy(docker_chunks(t@))
                &&& r.compact@ == if chunk_entries(docker_chunks(t@)).len() == 0 {
                    "-"@
                } else {
                    join(chunk_entries(docker_chunks(t@)), ';')
                }
            },
            None => r.running == 0 && r.stopped == 0 && r.unhealthy == 0 && r.compact@ == Seq::<
                char,
            >::empty(),
        },
{
    match output {
        Some(t) => docker_metrics(t),
        None => DockerMetrics { running: 0, stopped: 0, unhealthy: 0, compact: String::new() },
    }
}

} // verus!
