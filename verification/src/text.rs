//! Text over Unicode scalar values: the string operations that the metric
//! parsers and the serial framing are built from.

use vstd::prelude::*;
use vstd::std_specs::iter::IteratorSpec;

verus! {

broadcast use vstd::string::group_string_axioms;

/// Unicode `White_Space`, the set that `char::is_whitespace` tests.
pub open spec fn is_whitespace(c: char) -> bool {
    let u = c as u32;
    (0x09 <= u && u <= 0x0D) || u == 0x20 || u == 0x85 || u == 0xA0 || u == 0x1680 || (0x2000 <= u
        && u <= 0x200A) || u == 0x2028 || u == 0x2029 || u == 0x202F || u == 0x205F || u == 0x3000
}

pub open spec fn is_ascii_digit(c: char) -> bool {
    '0' as u32 <= c as u32 && c as u32 <= '9' as u32
}

pub fn is_whitespace_char(c: char) -> (b: bool)
    ensures
        b == is_whitespace(c),
{
    let u = c as u32;
    (0x09 <= u && u <= 0x0D) || u == 0x20 || u == 0x85 || u == 0xA0 || u == 0x1680 || (0x2000 <= u
        && u <= 0x200A) || u == 0x2028 || u == 0x2029 || u == 0x202F || u == 0x205F || u == 0x3000
}

pub fn is_ascii_digit_char(c: char) -> (b: bool)
    ensures
        b == is_ascii_digit(c),
{
    let u = c as u32;
    48 <= u && u <= 57
}

/// The characters of a string slice, in order.
pub fn str_chars(s: &str) -> (v: Vec<char>)
    ensures
        v@ == s@,
{
    let mut v: Vec<char> = Vec::new();
    for c in iter: s.chars()
        invariant
            v@ == iter.seq().take(iter.index() as int),
    {
        v.push(c);
    }
    v
}

/// `String::push`: appends one character to the string.
#[verifier::external_body]
fn string_push(s: &mut String, c: char)
    ensures
        final(s)@ == old(s)@.push(c),
{
    s.push(c);
}

/// The string made of the given characters.
pub fn chars_string(v: &Vec<char>) -> (s: String)
    ensures
        s@ == v@,
{
    let mut s = String::new();
    let mut i: usize = 0;
    while i < v.len()
        invariant
            i <= v.len(),
            s@ == v@.take(i as int),
        decreases v.len() - i,
    {
        string_push(&mut s, v[i]);
        assert(v@.take(i + 1) =~= v@.take(i as int).push(v@[i as int]));
        i = i + 1;
    }
    assert(v@.take(v.len() as int) =~= v@);
    s
}

/// Appends the characters of `s` to `out`.
pub fn push_str(out: &mut Vec<char>, s: &str)
    ensures
        final(out)@ == old(out)@ + s@,
{
    let v = str_chars(s);
    push_all(out, &v);
}

/// Appends the characters of `v` to `out`.
pub fn push_all(out: &mut Vec<char>, v: &Vec<char>)
    ensures
        final(out)@ == old(out)@ + v@,
{
    let mut i: usize = 0;
    while i < v.len()
        invariant
            i <= v.len(),
            out@ == old(out)@ + v@.take(i as int),
        decreases v.len() - i,
    {
        out.push(v[i]);
        assert(v@.take(i + 1) =~= v@.take(i as int).push(v@[i as int]));
        i = i + 1;
    }
    assert(v@.take(v.len() as int) =~= v@);
}

/// Lower-case mapping of Unicode text, as `str::to_lowercase` computes it.
pub uninterp spec fn lowercase(s: Seq<char>) -> Seq<char>;

/// Text made of ASCII characters only.
pub open spec fn is_ascii_text(s: Seq<char>) -> bool {
    forall|i: int| 0 <= i < s.len() ==> (#[trigger] s[i] as u32) < 128
}

/// The lower-case form of an ASCII character: `A`-`Z` become `a`-`z`,
/// every other character stays.
pub open spec fn ascii_lower(c: char) -> char {
    if 65 <= (c as u32) && (c as u32) <= 90 {
        ((c as u32) + 32) as char
    } else {
        c
    }
}

/// The lower-case form of ASCII text, character by character.
pub open spec fn ascii_lowercase(s: Seq<char>) -> Seq<char> {
    s.map_values(|c: char| ascii_lower(c))
}

/// `str::to_lowercase`: the lower-case equivalent of the string, by the
/// Unicode `Lowercase` mapping. Its result is named; of ASCII text the
/// mapping only turns `A`-`Z` into `a`-`z`, which the contract states.
/// Of other text nothing more is stated.
#[verifier::external_body]
fn str_to_lowercase(s: &str) -> (r: String)
    ensures
        r@ == lowercase(s@),
        is_ascii_text(s@) ==> r@ == ascii_lowercase(s@),
{
    s.to_lowercase()
}

/// ASCII text stays ASCII when lower-cased, and lower-casing it twice
/// gives what lower-casing it once gives.
pub proof fn lemma_ascii_lowercase_idempotent(s: Seq<char>)
    requires
        is_ascii_text(s),
    ensures
        is_ascii_text(ascii_lowercase(s)),
        ascii_lowercase(ascii_lowercase(s)) == ascii_lowercase(s),
{
    let l = ascii_lowercase(s);
    assert forall|i: int| 0 <= i < l.len() implies (#[trigger] l[i] as u32) < 128 && ascii_lower(
        l[i],
    ) == l[i] by {
        assert((s[i] as u32) < 128);
    }
    assert(ascii_lowercase(l) =~= l);
}

/// The lower-case form of `v`.
pub fn to_lowercase(v: &Vec<char>) -> (r: Vec<char>)
    ensures
        r@ == lowercase(v@),
        is_ascii_text(v@) ==> r@ == ascii_lowercase(v@),
{
    let s = chars_string(v);
    let l = str_to_lowercase(s.as_str());
    str_chars(l.as_str())
}

/// Unicode `Numeric` general categories, as `char::is_numeric` tests them.
pub uninterp spec fn is_numeric(c: char) -> bool;

/// `char::is_numeric`: whether the character is in a numeric general
/// category (Nd, Nl, No); ASCII decimal digits are (category Nd).
#[verifier::external_body]
fn char_is_numeric(c: char) -> (b: bool)
    ensures
        b == is_numeric(c),
        is_ascii_digit(c) ==> b,
{
    c.is_numeric()
}

pub fn is_numeric_char(c: char) -> (b: bool)
    ensures
        b == is_numeric(c),
{
    char_is_numeric(c)
}

/// `p` occurs in `s` at position `i`.
pub open spec fn occurs_at(s: Seq<char>, p: Seq<char>, i: int) -> bool {
    0 <= i && i + p.len() <= s.len() && s.subrange(i, i + p.len()) =~= p
}

/// The first position at or after `i` where `p` occurs in `s`.
pub open spec fn find_from(s: Seq<char>, p: Seq<char>, i: int) -> Option<int>
    decreases s.len() - i,
{
    if i < 0 || i + p.len() > s.len() {
        None
    } else if s.subrange(i, i + p.len()) =~= p {
        Some(i)
    } else {
        find_from(s, p, i + 1)
    }
}

pub open spec fn contains(s: Seq<char>, p: Seq<char>) -> bool {
    find_from(s, p, 0) is Some
}

pub proof fn lemma_find_from(s: Seq<char>, p: Seq<char>, i: int)
    requires
        0 <= i,
    ensures
        match find_from(s, p, i) {
            Some(j) => i <= j && occurs_at(s, p, j) && forall|k: int|
                i <= k < j ==> !occurs_at(s, p, k),
            None => forall|k: int| i <= k ==> !occurs_at(s, p, k),
        },
    decreases s.len() - i,
{
    if i + p.len() > s.len() {
    } else if s.subrange(i, i + p.len()) =~= p {
    } else {
        lemma_find_from(s, p, i + 1);
    }
}

pub proof fn lemma_find_first(s: Seq<char>, p: Seq<char>, i: int, j: int)
    requires
        0 <= i <= j,
        occurs_at(s, p, j),
        forall|k: int| i <= k < j ==> !occurs_at(s, p, k),
    ensures
        find_from(s, p, i) == Some(j),
    decreases j - i,
{
    if i < j {
        assert(!occurs_at(s, p, i));
        lemma_find_first(s, p, i + 1, j);
    }
}

pub proof fn lemma_find_none(s: Seq<char>, p: Seq<char>, i: int)
    requires
        0 <= i,
        forall|k: int| i <= k ==> !occurs_at(s, p, k),
    ensures
        find_from(s, p, i) is None,
    decreases s.len() - i,
{
    if i + p.len() <= s.len() {
        assert(!occurs_at(s, p, i));
        lemma_find_none(s, p, i + 1);
    }
}

/// Whether `p` occurs in `s` at position `i`.
pub fn occurs_at_exec(s: &Vec<char>, p: &Vec<char>, i: usize) -> (b: bool)
    requires
        i + p.len() <= s.len(),
    ensures
        b == occurs_at(s@, p@, i as int),
{
    let mut k: usize = 0;
    while k < p.len()
        invariant
            k <= p.len(),
            i + p.len() <= s.len(),
            forall|t: int| 0 <= t < k ==> s@[i + t] == p@[t],
        decreases p.len() - k,
    {
        if s[i + k] != p[k] {
            assert(s@.subrange(i as int, i + p.len())[k as int] != p@[k as int]);
            return false;
        }
        k = k + 1;
    }
    assert(s@.subrange(i as int, i + p.len()) =~= p@);
    true
}

/// The first position at or after `from` where `p` occurs in `s`.
pub fn find(s: &Vec<char>, p: &Vec<char>, from: usize) -> (r: Option<usize>)
    ensures
        match r {
            Some(j) => find_from(s@, p@, from as int) == Some(j as int),
            None => find_from(s@, p@, from as int) is None,
        },
{
    let mut i = from;
    if p.len() > s.len() {
        return None;
    }
    while i <= s.len() - p.len()
        invariant
            from <= i,
            p.len() <= s.len(),
            find_from(s@, p@, from as int) == find_from(s@, p@, i as int),
        decreases s.len() - i,
    {
        if occurs_at_exec(s, p, i) {
            return Some(i);
        }
        i = i + 1;
    }
    None
}

/// Whether `p` occurs anywhere in `s`.
pub fn contains_exec(s: &Vec<char>, p: &Vec<char>) -> (b: bool)
    ensures
        b == contains(s@, p@),
{
    find(s, p, 0).is_some()
}

/// Whether the string `p` occurs in `s`.
pub fn contains_str(s: &Vec<char>, p: &str) -> (b: bool)
    ensures
        b == contains(s@, p@),
{
    let pv = str_chars(p);
    contains_exec(s, &pv)
}

/// Whether `s` begins with the string `p`.
pub fn starts_with_str(s: &Vec<char>, p: &str) -> (b: bool)
    ensures
        b == p@.is_prefix_of(s@),
{
    let pv = str_chars(p);
    if pv.len() > s.len() {
        return false;
    }
    let b = occurs_at_exec(s, &pv, 0);
    proof {
        assert(s@.subrange(0, pv@.len() as int) =~= s@.take(pv@.len() as int));
    }
    b
}

/// Whether `s` ends with the character `c`.
pub fn ends_with_char(s: &Vec<char>, c: char) -> (b: bool)
    ensures
        b == (s@.len() > 0 && s@.last() == c),
{
    s.len() > 0 && s[s.len() - 1] == c
}

/// Whether the character `c` occurs in `s`.
pub fn contains_char(s: &Vec<char>, c: char) -> (b: bool)
    ensures
        b == s@.contains(c),
{
    let mut i: usize = 0;
    while i < s.len()
        invariant
            i <= s.len(),
            forall|k: int| 0 <= k < i ==> s@[k] != c,
        decreases s.len() - i,
    {
        if s[i] == c {
            return true;
        }
        i = i + 1;
    }
    false
}

/// The characters of `s` from `lo` up to `hi`.
pub fn slice(s: &Vec<char>, lo: usize, hi: usize) -> (r: Vec<char>)
    requires
        lo <= hi <= s.len(),
    ensures
        r@ == s@.subrange(lo as int, hi as int),
{
    let mut r: Vec<char> = Vec::new();
    let mut i = lo;
    while i < hi
        invariant
            lo <= i <= hi,
            hi <= s.len(),
            r@ == s@.subrange(lo as int, i as int),
        decreases hi - i,
    {
        r.push(s[i]);
        assert(s@.subrange(lo as int, i + 1) =~= s@.subrange(lo as int, i as int).push(s@[i as int]));
        i = i + 1;
    }
    r
}

/// Whether two character sequences are equal.
pub fn chars_eq(a: &Vec<char>, b: &Vec<char>) -> (r: bool)
    ensures
        r == (a@ == b@),
{
    if a.len() != b.len() {
        return false;
    }
    let r = occurs_at_exec(a, b, 0);
    proof {
        assert(a@.subrange(0, b@.len() as int) =~= a@);
    }
    r
}

/// Whether `a` is the string `b`.
pub fn eq_str(a: &Vec<char>, b: &str) -> (r: bool)
    ensures
        r == (a@ == b@),
{
    let bv = str_chars(b);
    chars_eq(a, &bv)
}


/// The views of a sequence of character vectors.
pub open spec fn views(v: Seq<Vec<char>>) -> Seq<Seq<char>> {
    v.map_values(|x: Vec<char>| x@)
}

pub proof fn lemma_views_push(v: Seq<Vec<char>>, x: Vec<char>)
    ensures
        views(v.push(x)) == views(v).push(x@),
{
    assert(views(v.push(x)) =~= views(v).push(x@));
}

/// A line without the carriage return that ends a `\r\n` line ending.
pub open spec fn strip_cr(l: Seq<char>) -> Seq<char> {
    if l.len() > 0 && l.last() == '\r' {
        l.drop_last()
    } else {
        l
    }
}

/// The lines of `s`, as `str::lines` yields them: split at `\n`, a `\r`
/// before the `\n` dropped, and no empty line after a final `\n`.
pub open spec fn lines(s: Seq<char>) -> Seq<Seq<char>>
    decreases s.len(),
{
    if s.len() == 0 {
        Seq::empty()
    } else {
        match find_from(s, seq!['\n'], 0) {
            Some(i) => {
                proof {
                    lemma_find_from(s, seq!['\n'], 0);
                }
                seq![strip_cr(s.take(i))] + lines(s.skip(i + 1))
            },
            None => seq![s],
        }
    }
}

/// Text that ends with a line break splits into lines apart from what
/// follows it: the lines of `a + b` are those of `a`, then those of `b`.
pub proof fn lemma_lines_append(a: Seq<char>, b: Seq<char>)
    requires
        a.len() > 0,
        a.last() == '\n',
    ensures
        lines(a + b) == lines(a) + lines(b),
    decreases a.len(),
{
    let nl = seq!['\n'];
    let s = a + b;
    lemma_find_from(a, nl, 0);
    lemma_single_char_occurs(a, '\n', a.len() - 1);
    let i = find_from(a, nl, 0).unwrap();
    assert forall|k: int| 0 <= k < i implies !occurs_at(s, nl, k) by {
        lemma_single_char_occurs(s, '\n', k);
        lemma_single_char_occurs(a, '\n', k);
        assert(s[k] == a[k]);
    }
    lemma_single_char_occurs(s, '\n', i);
    lemma_single_char_occurs(a, '\n', i);
    assert(s[i] == a[i]);
    lemma_find_first(s, nl, 0, i);
    assert(s.take(i) =~= a.take(i));
    let rest = a.skip(i + 1);
    assert(s.skip(i + 1) =~= rest + b);
    if rest.len() == 0 {
        assert(rest + b =~= b);
        assert(lines(rest) =~= Seq::<Seq<char>>::empty());
    } else {
        assert(rest.last() == a.last());
        lemma_lines_append(rest, b);
    }
    assert(lines(s) =~= seq![strip_cr(a.take(i))] + lines(rest + b));
    assert(lines(a) =~= seq![strip_cr(a.take(i))] + lines(rest));
}

/// A line without breaks, followed by a line break, is one line.
pub proof fn lemma_lines_one(l: Seq<char>)
    requires
        !l.contains('\n'),
    ensures
        lines(l + seq!['\n']) == seq![strip_cr(l)],
{
    let nl = seq!['\n'];
    let s = l + nl;
    assert forall|k: int| 0 <= k < l.len() implies !occurs_at(s, nl, k) by {
        lemma_single_char_occurs(s, '\n', k);
        assert(s[k] == l[k]);
    }
    lemma_single_char_occurs(s, '\n', l.len() as int);
    lemma_find_first(s, nl, 0, l.len() as int);
    assert(s.take(l.len() as int) =~= l);
    assert(s.skip(l.len() as int + 1) =~= Seq::<char>::empty());
    assert(lines(s.skip(l.len() as int + 1)) =~= Seq::<Seq<char>>::empty());
    assert(lines(s) =~= seq![strip_cr(l)]);
}

proof fn lemma_single_char_occurs(s: Seq<char>, c: char, k: int)
    ensures
        occurs_at(s, seq![c], k) <==> (0 <= k < s.len() && s[k] == c),
{
    if 0 <= k < s.len() && s[k] == c {
        assert(s.subrange(k, k + 1) =~= seq![c]);
    }
    if occurs_at(s, seq![c], k) {
        assert(s.subrange(k, k + 1)[0] == c);
    }
}

/// The first occurrence of `c` in `s` from position `start`, given that
/// none lies in `start..i` and one lies at `i`.
proof fn lemma_first_char_at(s: Seq<char>, c: char, start: int, i: int)
    requires
        0 <= start <= i < s.len(),
        s[i] == c,
        forall|k: int| start <= k < i ==> s[k] != c,
    ensures
        find_from(s.skip(start), seq![c], 0) == Some(i - start),
{
    let t = s.skip(start);
    assert forall|k: int| 0 <= k < i - start implies !occurs_at(t, seq![c], k) by {
        lemma_single_char_occurs(t, c, k);
    }
    lemma_single_char_occurs(t, c, i - start);
    lemma_find_first(t, seq![c], 0, i - start);
}

proof fn lemma_no_char(s: Seq<char>, c: char, start: int)
    requires
        0 <= start <= s.len(),
        forall|k: int| start <= k < s.len() ==> s[k] != c,
    ensures
        find_from(s.skip(start), seq![c], 0) is None,
{
    let t = s.skip(start);
    assert forall|k: int| 0 <= k implies !occurs_at(t, seq![c], k) by {
        lemma_single_char_occurs(t, c, k);
    }
    lemma_find_none(t, seq![c], 0);
}

/// The lines of `s`.
pub fn lines_exec(s: &Vec<char>) -> (r: Vec<Vec<char>>)
    ensures
        views(r@) == lines(s@),
{
    let mut out: Vec<Vec<char>> = Vec::new();
    let mut start: usize = 0;
    let mut i: usize = 0;
    assert(s@.skip(0) =~= s@);
    assert(views(out@) + lines(s@) =~= lines(s@));
    while i < s.len()
        invariant
            start <= i <= s.len(),
            views(out@) + lines(s@.skip(start as int)) == lines(s@),
            forall|k: int| start <= k < i ==> s@[k] != '\n',
        decreases s.len() - i,
    {
        if s[i] == '\n' {
            let mut line = slice(s, start, i);
            if line.len() > 0 && line[line.len() - 1] == '\r' {
                line.pop();
            }
            proof {
                let t = s@.skip(start as int);
                lemma_first_char_at(s@, '\n', start as int, i as int);
                assert(t.take(i - start) =~= s@.subrange(start as int, i as int));
                assert(t.skip(i - start + 1) =~= s@.skip(i + 1));
                assert(line@ == strip_cr(s@.subrange(start as int, i as int))) by {
                    if s@.subrange(start as int, i as int).len() > 0 && s@.subrange(start as int, i as int).last() == '\r' {
                        assert(line@ =~= s@.subrange(start as int, i as int).drop_last());
                    }
                }
                lemma_views_push(out@, line);
                assert(views(out@.push(line)) + lines(s@.skip(i + 1)) =~= views(out@) + lines(t));
            }
            out.push(line);
            start = i + 1;
        }
        i = i + 1;
    }
    if start < s.len() {
        let line = slice(s, start, s.len());
        proof {
            lemma_no_char(s@, '\n', start as int);
            assert(line@ =~= s@.skip(start as int));
            lemma_views_push(out@, line);
        }
        out.push(line);
    } else {
        proof {
            assert(s@.skip(start as int).len() == 0);
            assert(views(out@) + lines(s@.skip(start as int)) =~= views(out@));
        }
    }
    out
}

/// `s` without its leading white space.
pub open spec fn trim_start(s: Seq<char>) -> Seq<char>
    decreases s.len(),
{
    if s.len() > 0 && is_whitespace(s[0]) {
        trim_start(s.drop_first())
    } else {
        s
    }
}

/// `s` without its trailing white space.
pub open spec fn trim_end(s: Seq<char>) -> Seq<char>
    decreases s.len(),
{
    if s.len() > 0 && is_whitespace(s.last()) {
        trim_end(s.drop_last())
    } else {
        s
    }
}

/// `s` without leading and trailing white space, as `str::trim` gives it.
pub open spec fn trim(s: Seq<char>) -> Seq<char> {
    trim_end(trim_start(s))
}

/// `s` without its leading white space.
pub fn trim_start_exec(s: &Vec<char>) -> (r: Vec<char>)
    ensures
        r@ == trim_start(s@),
{
    let mut lo: usize = 0;
    assert(s@.skip(0) =~= s@);
    while lo < s.len() && is_whitespace_char(s[lo])
        invariant
            lo <= s.len(),
            trim_start(s@) == trim_start(s@.skip(lo as int)),
        decreases s.len() - lo,
    {
        assert(s@.skip(lo as int).drop_first() =~= s@.skip(lo + 1));
        lo = lo + 1;
    }
    let r = slice(s, lo, s.len());
    assert(r@ =~= s@.skip(lo as int));
    r
}

/// `s` without its trailing white space.
pub fn trim_end_exec(s: &Vec<char>) -> (r: Vec<char>)
    ensures
        r@ == trim_end(s@),
{
    let mut hi: usize = s.len();
    assert(s@.take(s.len() as int) =~= s@);
    while hi > 0 && is_whitespace_char(s[hi - 1])
        invariant
            hi <= s.len(),
            trim_end(s@) == trim_end(s@.take(hi as int)),
        decreases hi,
    {
        assert(s@.take(hi as int).drop_last() =~= s@.take(hi - 1));
        hi = hi - 1;
    }
    assert(s@.take(s.len() as int) =~= s@);
    let r = slice(s, 0, hi);
    assert(r@ =~= s@.take(hi as int));
    r
}

/// `s` without leading and trailing white space.
pub fn trim_exec(s: &Vec<char>) -> (r: Vec<char>)
    ensures
        r@ == trim(s@),
{
    let t = trim_start_exec(s);
    trim_end_exec(&t)
}

/// `s` without the leading occurrences of `c`, as `str::trim_start_matches` gives it.
pub open spec fn trim_start_char(s: Seq<char>, c: char) -> Seq<char>
    decreases s.len(),
{
    if s.len() > 0 && s[0] == c {
        trim_start_char(s.drop_first(), c)
    } else {
        s
    }
}

/// `s` without the trailing characters that belong to `cs`, as
/// `str::trim_end_matches` with a set of characters gives it.
pub open spec fn trim_end_chars(s: Seq<char>, cs: Seq<char>) -> Seq<char>
    decreases s.len(),
{
    if s.len() > 0 && cs.contains(s.last()) {
        trim_end_chars(s.drop_last(), cs)
    } else {
        s
    }
}

pub fn trim_start_char_exec(s: &Vec<char>, c: char) -> (r: Vec<char>)
    ensures
        r@ == trim_start_char(s@, c),
{
    let mut lo: usize = 0;
    assert(s@.skip(0) =~= s@);
    while lo < s.len() && s[lo] == c
        invariant
            lo <= s.len(),
            trim_start_char(s@, c) == trim_start_char(s@.skip(lo as int), c),
        decreases s.len() - lo,
    {
        assert(s@.skip(lo as int).drop_first() =~= s@.skip(lo + 1));
        lo = lo + 1;
    }
    let r = slice(s, lo, s.len());
    assert(r@ =~= s@.skip(lo as int));
    r
}

pub fn trim_end_chars_exec(s: &Vec<char>, cs: &Vec<char>) -> (r: Vec<char>)
    ensures
        r@ == trim_end_chars(s@, cs@),
{
    let mut hi: usize = s.len();
    assert(s@.take(s.len() as int) =~= s@);
    while hi > 0 && contains_char(cs, s[hi - 1])
        invariant
            hi <= s.len(),
            trim_end_chars(s@, cs@) == trim_end_chars(s@.take(hi as int), cs@),
        decreases hi,
    {
        assert(s@.take(hi as int).drop_last() =~= s@.take(hi - 1));
        hi = hi - 1;
    }
    assert(s@.take(s.len() as int) =~= s@);
    let r = slice(s, 0, hi);
    assert(r@ =~= s@.take(hi as int));
    r
}


/// The number of characters before the first white space of `s`.
pub open spec fn word_len(s: Seq<char>) -> nat
    decreases s.len(),
{
    if s.len() == 0 || is_whitespace(s[0]) {
        0
    } else {
        1 + word_len(s.drop_first())
    }
}

pub proof fn lemma_word_len(s: Seq<char>)
    ensures
        word_len(s) <= s.len(),
        s.len() > 0 && !is_whitespace(s[0]) ==> word_len(s) >= 1,
    decreases s.len(),
{
    if s.len() > 0 && !is_whitespace(s[0]) {
        lemma_word_len(s.drop_first());
    }
}

proof fn lemma_word_len_eq(s: Seq<char>, w: int)
    requires
        0 <= w <= s.len(),
        forall|k: int| 0 <= k < w ==> !is_whitespace(s[k]),
        w == s.len() || is_whitespace(s[w]),
    ensures
        word_len(s) == w,
    decreases w,
{
    if w > 0 {
        lemma_word_len_eq(s.drop_first(), w - 1);
    }
}

/// The white-space separated words of `s`, as `str::split_whitespace` yields them.
pub open spec fn words(s: Seq<char>) -> Seq<Seq<char>>
    decreases s.len(),
{
    if s.len() == 0 {
        Seq::empty()
    } else if is_whitespace(s[0]) {
        words(s.drop_first())
    } else {
        proof {
            lemma_word_len(s);
        }
        seq![s.take(word_len(s) as int)] + words(s.skip(word_len(s) as int))
    }
}

/// The white-space separated words of `s`.
pub fn words_exec(s: &Vec<char>) -> (r: Vec<Vec<char>>)
    ensures
        views(r@) == words(s@),
{
    let mut out: Vec<Vec<char>> = Vec::new();
    let mut i: usize = 0;
    assert(s@.skip(0) =~= s@);
    assert(views(out@) + words(s@) =~= words(s@));
    while i < s.len()
        invariant
            i <= s.len(),
            views(out@) + words(s@.skip(i as int)) == words(s@),
        decreases s.len() - i,
    {
        if is_whitespace_char(s[i]) {
            assert(s@.skip(i as int).drop_first() =~= s@.skip(i + 1));
            i = i + 1;
        } else {
            let mut j = i;
            while j < s.len() && !is_whitespace_char(s[j])
                invariant
                    i <= j <= s.len(),
                    forall|k: int| i <= k < j ==> !is_whitespace(s@[k]),
                decreases s.len() - j,
            {
                j = j + 1;
            }
            let w = slice(s, i, j);
            proof {
                let t = s@.skip(i as int);
                lemma_word_len_eq(t, j - i);
                assert(t.take(j - i) =~= s@.subrange(i as int, j as int));
                assert(t.skip(j - i) =~= s@.skip(j as int));
                lemma_views_push(out@, w);
                assert(views(out@.push(w)) + words(s@.skip(j as int)) =~= views(out@) + words(t));
            }
            out.push(w);
            i = j;
        }
    }
    proof {
        assert(s@.skip(i as int).len() == 0);
        assert(views(out@) + words(s@.skip(i as int)) =~= views(out@));
    }
    out
}

/// The pieces of `s` between the occurrences of the separator `p`, as
/// `str::split` yields them.
pub open spec fn split_on(s: Seq<char>, p: Seq<char>) -> Seq<Seq<char>>
    decreases s.len(),
{
    if p.len() == 0 {
        seq![s]
    } else {
        match find_from(s, p, 0) {
            Some(i) => {
                proof {
                    lemma_find_from(s, p, 0);
                }
                seq![s.take(i)] + split_on(s.skip(i + p.len()), p)
            },
            None => seq![s],
        }
    }
}

/// The pieces of `s` between the occurrences of the non-empty separator `p`.
pub fn split_on_exec(s: &Vec<char>, p: &Vec<char>) -> (r: Vec<Vec<char>>)
    requires
        p.len() > 0,
    ensures
        views(r@) == split_on(s@, p@),
{
    let mut out: Vec<Vec<char>> = Vec::new();
    let mut start: usize = 0;
    assert(s@.skip(0) =~= s@);
    assert(views(out@) + split_on(s@, p@) =~= split_on(s@, p@));
    loop
        invariant
            start <= s.len(),
            p.len() > 0,
            views(out@) + split_on(s@.skip(start as int), p@) == split_on(s@, p@),
        decreases s.len() - start,
    {
        match find(s, p, start) {
            Some(i) => {
                proof {
                    lemma_find_from(s@, p@, start as int);
                }
                let piece = slice(s, start, i);
                proof {
                    let t = s@.skip(start as int);
                    assert forall|k: int| 0 <= k < i - start implies !occurs_at(t, p@, k) by {
                        assert(!occurs_at(s@, p@, start + k));
                        assert(t.subrange(k, k + p@.len()) =~= s@.subrange(start + k, start + k + p@.len()));
                    }
                    assert(t.subrange(i - start, i - start + p@.len()) =~= s@.subrange(i as int, i + p@.len()));
                    lemma_find_first(t, p@, 0, i - start);
                    assert(t.take(i - start) =~= piece@);
                    assert(t.skip(i - start + p@.len()) =~= s@.skip(i + p@.len()));
                    lemma_views_push(out@, piece);
                    assert(views(out@.push(piece)) + split_on(s@.skip(i + p@.len()), p@) =~= views(out@) + split_on(t, p@));
                }
                out.push(piece);
                start = i + p.len();
            },
            None => {
                let piece = slice(s, start, s.len());
                proof {
                    let t = s@.skip(start as int);
                    lemma_find_from(s@, p@, start as int);
                    assert forall|k: int| 0 <= k implies !occurs_at(t, p@, k) by {
                        assert(!occurs_at(s@, p@, start + k));
                        if k + p@.len() <= t.len() {
                            assert(t.subrange(k, k + p@.len()) =~= s@.subrange(start + k, start + k + p@.len()));
                        }
                    }
                    lemma_find_none(t, p@, 0);
                    assert(piece@ =~= t);
                    lemma_views_push(out@, piece);
                }
                out.push(piece);
                return out;
            },
        }
    }
}

/// The parts of `s` before and after the first `c`, as `str::split_once` gives them.
pub open spec fn split_once(s: Seq<char>, c: char) -> Option<(Seq<char>, Seq<char>)> {
    match find_from(s, seq![c], 0) {
        Some(i) => Some((s.take(i), s.skip(i + 1))),
        None => None,
    }
}

pub fn split_once_exec(s: &Vec<char>, c: char) -> (r: Option<(Vec<char>, Vec<char>)>)
    ensures
        match r {
            Some((a, b)) => split_once(s@, c) == Some((a@, b@)),
            None => split_once(s@, c) is None,
        },
{
    let mut i: usize = 0;
    while i < s.len()
        invariant
            i <= s.len(),
            forall|k: int| 0 <= k < i ==> s@[k] != c,
        decreases s.len() - i,
    {
        if s[i] == c {
            proof {
                lemma_first_char_at(s@, c, 0, i as int);
                assert(s@.skip(0) =~= s@);
            }
            let a = slice(s, 0, i);
            let b = slice(s, i + 1, s.len());
            assert(a@ =~= s@.take(i as int));
            assert(b@ =~= s@.skip(i + 1));
            return Some((a, b));
        }
        i = i + 1;
    }
    proof {
        lemma_no_char(s@, c, 0);
        assert(s@.skip(0) =~= s@);
    }
    None
}

/// A character of a name, with the separators of the compact listings
/// (`|`, `;` and `,`) replaced by `_`.
pub open spec fn clean_char(c: char) -> char {
    if c == '|' || c == ';' || c == ',' {
        '_'
    } else {
        c
    }
}

/// `s` with `|`, `;` and `,` replaced by `_`, as `str::replace` with that
/// set of characters gives it.
pub open spec fn clean_name(s: Seq<char>) -> Seq<char> {
    s.map_values(|c: char| clean_char(c))
}

pub fn clean_name_exec(s: &Vec<char>) -> (r: Vec<char>)
    ensures
        r@ == clean_name(s@),
{
    let mut r: Vec<char> = Vec::new();
    let mut i: usize = 0;
    while i < s.len()
        invariant
            i <= s.len(),
            r@ =~= clean_name(s@.take(i as int)),
        decreases s.len() - i,
    {
        let c = s[i];
        let d = if c == '|' || c == ';' || c == ',' {
            '_'
        } else {
            c
        };
        r.push(d);
        assert(clean_name(s@.take(i + 1)) =~= clean_name(s@.take(i as int)).push(clean_char(s@[i as int])));
        i = i + 1;
    }
    assert(s@.take(s.len() as int) =~= s@);
    r
}

/// The pieces joined with `sep` between them, as `[..].join` gives it.
pub open spec fn join(parts: Seq<Seq<char>>, sep: char) -> Seq<char>
    decreases parts.len(),
{
    if parts.len() == 0 {
        Seq::empty()
    } else if parts.len() == 1 {
        parts[0]
    } else {
        join(parts.drop_last(), sep).push(sep) + parts.last()
    }
}

pub fn join_exec(parts: &Vec<Vec<char>>, sep: char) -> (r: Vec<char>)
    ensures
        r@ == join(views(parts@), sep),
{
    let mut r: Vec<char> = Vec::new();
    let mut i: usize = 0;
    while i < parts.len()
        invariant
            i <= parts.len(),
            r@ == join(views(parts@.take(i as int)), sep),
        decreases parts.len() - i,
    {
        let ghost before = r@;
        if i > 0 {
            r.push(sep);
        }
        push_all(&mut r, &parts[i]);
        proof {
            let vs = views(parts@.take(i + 1));
            assert(vs.drop_last() =~= views(parts@.take(i as int)));
            assert(vs.last() == parts@[i as int]@);
            if i == 0 {
                assert(vs.len() == 1);
                assert(r@ =~= vs[0]);
            } else {
                assert(r@ =~= before.push(sep) + parts@[i as int]@);
            }
        }
        i = i + 1;
    }
    assert(parts@.take(parts.len() as int) =~= parts@);
    r
}

/// The number of bytes of `c` in UTF-8.
pub open spec fn utf8_width(c: char) -> nat {
    let u = c as u32;
    if u < 0x80 {
        1
    } else if u < 0x800 {
        2
    } else if u < 0x10000 {
        3
    } else {
        4
    }
}

/// The number of bytes of `s` in UTF-8 (what `str::len` counts).
pub open spec fn utf8_len(s: Seq<char>) -> nat
    decreases s.len(),
{
    if s.len() == 0 {
        0
    } else {
        utf8_len(s.drop_last()) + utf8_width(s.last())
    }
}

/// Byte offset `n` of the UTF-8 form of `s` lies between two characters.
pub open spec fn is_char_boundary(s: Seq<char>, n: nat) -> bool {
    exists|k: int| 0 <= k <= s.len() && utf8_len(#[trigger] s.take(k)) == n
}

/// Byte slicing `&s[..min(len, n)]` is defined: it does not cut a character.
pub open spec fn can_cut(s: Seq<char>, n: nat) -> bool {
    utf8_len(s) <= n || is_char_boundary(s, n)
}

/// The first `n` bytes of `s` (all of it if it is shorter), as
/// `&s[..s.len().min(n)]` gives them where that is defined.
pub open spec fn cut_bytes(s: Seq<char>, n: nat) -> Seq<char> {
    if utf8_len(s) <= n {
        s
    } else {
        s.take(choose|k: int| 0 <= k <= s.len() && utf8_len(#[trigger] s.take(k)) == n)
    }
}

proof fn lemma_utf8_len_take_step(s: Seq<char>, k: int)
    requires
        0 <= k < s.len(),
    ensures
        utf8_len(s.take(k + 1)) == utf8_len(s.take(k)) + utf8_width(s[k]),
{
    assert(s.take(k + 1).drop_last() =~= s.take(k));
}

proof fn lemma_utf8_len_take_mono(s: Seq<char>, a: int, b: int)
    requires
        0 <= a < b <= s.len(),
    ensures
        utf8_len(s.take(a)) < utf8_len(s.take(b)),
    decreases b - a,
{
    lemma_utf8_len_take_step(s, b - 1);
    if a < b - 1 {
        lemma_utf8_len_take_mono(s, a, b - 1);
    }
}

pub fn utf8_width_exec(c: char) -> (w: usize)
    ensures
        w == utf8_width(c),
{
    let u = c as u32;
    if u < 0x80 {
        1
    } else if u < 0x800 {
        2
    } else if u < 0x10000 {
        3
    } else {
        4
    }
}

/// The first `n` bytes of `s`.
pub fn cut_bytes_exec(s: &Vec<char>, n: usize) -> (r: Vec<char>)
    requires
        n <= 64,
        can_cut(s@, n as nat),
    ensures
        r@ == cut_bytes(s@, n as nat),
{
    let mut k: usize = 0;
    let mut used: usize = 0;
    while k < s.len() && used + utf8_width_exec(s[k]) <= n
        invariant
            k <= s.len(),
            used <= n <= 64,
            used == utf8_len(s@.take(k as int)),
        decreases s.len() - k,
    {
        proof {
            lemma_utf8_len_take_step(s@, k as int);
        }
        used = used + utf8_width_exec(s[k]);
        k = k + 1;
    }
    if k == s.len() {
        assert(s@.take(k as int) =~= s@);
        let r = slice(s, 0, s.len());
        assert(r@ =~= s@);
        return r;
    }
    proof {
        lemma_utf8_len_take_step(s@, k as int);
        assert(s@.take(s.len() as int) =~= s@);
        if k + 1 < s.len() {
            lemma_utf8_len_take_mono(s@, k + 1, s.len() as int);
        }
        assert(utf8_len(s@) > n);
        assert(is_char_boundary(s@, n as nat));
        let kk = choose|kk: int| 0 <= kk <= s@.len() && utf8_len(#[trigger] s@.take(kk)) == n;
        if kk < k {
            lemma_utf8_len_take_mono(s@, kk, k as int);
        }
        if kk > k + 1 {
            lemma_utf8_len_take_mono(s@, k + 1, kk);
        }
        assert(kk == k);
    }
    let r = slice(s, 0, k);
    assert(r@ =~= s@.take(k as int));
    r
}


/// Whether byte slicing `s` at `n` (or at its end, if shorter) is defined.
pub fn can_cut_exec(s: &Vec<char>, n: usize) -> (b: bool)
    requires
        n <= 64,
    ensures
        b == can_cut(s@, n as nat),
{
    let mut k: usize = 0;
    let mut used: usize = 0;
    assert(s@.take(0) =~= Seq::<char>::empty());
    while k < s.len() && used + utf8_width_exec(s[k]) <= n
        invariant
            k <= s.len(),
            used <= n <= 64,
            used == utf8_len(s@.take(k as int)),
        decreases s.len() - k,
    {
        proof {
            lemma_utf8_len_take_step(s@, k as int);
        }
        used = used + utf8_width_exec(s[k]);
        k = k + 1;
    }
    if k == s.len() {
        assert(s@.take(k as int) =~= s@);
        return true;
    }
    proof {
        lemma_utf8_len_take_step(s@, k as int);
        assert(s@.take(s.len() as int) =~= s@);
        if k + 1 < s.len() {
            lemma_utf8_len_take_mono(s@, k + 1, s.len() as int);
        }
        if used < n {
            assert forall|kk: int| 0 <= kk <= s@.len() implies utf8_len(#[trigger] s@.take(kk)) != n by {
                if kk < k {
                    lemma_utf8_len_take_mono(s@, kk, k as int);
                } else if kk > k + 1 {
                    lemma_utf8_len_take_mono(s@, k + 1, kk);
                }
            }
        }
    }
    used == n
}


/// A name in a compact listing is at most 24 bytes long and holds none of
/// the listing's separators (`|`, `;`, `,`).
pub proof fn lemma_compact_name(name: Seq<char>)
    requires
        can_cut(clean_name(name), 24),
    ensures
        utf8_len(cut_bytes(clean_name(name), 24)) <= 24,
        !cut_bytes(clean_name(name), 24).contains('|'),
        !cut_bytes(clean_name(name), 24).contains(';'),
        !cut_bytes(clean_name(name), 24).contains(','),
{
    let c = clean_name(name);
    let r = cut_bytes(c, 24);
    if utf8_len(c) > 24 {
        let k = choose|k: int| 0 <= k <= c.len() && utf8_len(#[trigger] c.take(k)) == 24;
        assert(r == c.take(k));
    }
    assert forall|i: int| 0 <= i < r.len() implies r[i] != '|' && r[i] != ';' && r[i] != ',' by {
        assert(r[i] == c[i]);
        assert(c[i] == clean_char(name[i]));
    }
}

} // verus!
