//! Path completion of the last field of a line.
//!
//! Listing a directory is left to the caller: `completion_request` says which
//! directory to list, and `candidates` picks from its entries.

use vstd::prelude::*;
use crate::text::{chars_of, starts_with, string_of, has_prefix, strings_view};

verus! {

/// Whether `c` is white space in Unicode's sense (`char::is_whitespace`).
pub open spec fn is_ws(c: char) -> bool {
    ('\t' <= c && c <= '\r') || c == ' ' || c == '\u{85}' || c == '\u{a0}' || c == '\u{1680}'
        || ('\u{2000}' <= c && c <= '\u{200a}') || c == '\u{2028}' || c == '\u{2029}'
        || c == '\u{202f}' || c == '\u{205f}' || c == '\u{3000}'
}

/// Whether `c` is white space (see `is_ws`).
pub fn is_whitespace(c: char) -> (r: bool)
    ensures
        r == is_ws(c),
{
    ('\t' <= c && c <= '\r') || c == ' ' || c == '\u{85}' || c == '\u{a0}' || c == '\u{1680}'
        || ('\u{2000}' <= c && c <= '\u{200a}') || c == '\u{2028}' || c == '\u{2029}'
        || c == '\u{202f}' || c == '\u{205f}' || c == '\u{3000}'
}

/// The fields of `s` between runs of white space.
pub open spec fn ws_fields(s: Seq<char>) -> Seq<Seq<char>>
    decreases s.len(),
{
    if s.len() == 0 {
        Seq::empty()
    } else {
        let f = ws_fields(s.drop_last());
        let c = s.last();
        if is_ws(c) {
            f
        } else if s.len() >= 2 && !is_ws(s[s.len() - 2]) {
            f.update(f.len() - 1, f.last().push(c))
        } else {
            f.push(seq![c])
        }
    }
}

/// Fields joined by single spaces.
pub open spec fn join_fields(f: Seq<Seq<char>>) -> Seq<char>
    decreases f.len(),
{
    if f.len() == 0 {
        Seq::empty()
    } else if f.len() == 1 {
        f[0]
    } else {
        join_fields(f.drop_last()) + seq![' '] + f.last()
    }
}

/// Whether `s` ends in white space.
pub open spec fn ends_in_ws(s: Seq<char>) -> bool {
    s.len() > 0 && is_ws(s.last())
}

/// Where completion looks.
#[derive(Debug)]
pub enum Completion {
    /// Nowhere: command names are not completed.
    Nothing,
    /// Every entry of the working directory.
    WorkingDir,
    /// The entries of the directory `dir` (or of its parent, where `dir`
    /// is not an existing directory) whose paths start with `prefix`.
    Search(String, String),
}

pub enum CompletionSpec {
    Nothing,
    WorkingDir,
    Search(Seq<char>, Seq<char>),
}

pub open spec fn completion_view(c: Completion) -> CompletionSpec {
    match c {
        Completion::Nothing => CompletionSpec::Nothing,
        Completion::WorkingDir => CompletionSpec::WorkingDir,
        Completion::Search(d, p) => CompletionSpec::Search(d@, p@),
    }
}

/// Where completing `line` looks: after white space, in the working
/// directory; with a single field (the command name) or none, nowhere;
/// otherwise for the last field, as a path (relative ones under `./`).
pub open spec fn completion_of(line: Seq<char>) -> CompletionSpec {
    let f = ws_fields(line);
    if ends_in_ws(line) {
        CompletionSpec::WorkingDir
    } else if f.len() <= 1 {
        CompletionSpec::Nothing
    } else {
        let last = f.last();
        let dir = if last[0] == '/' { last } else { seq!['.', '/'] + last };
        CompletionSpec::Search(dir, last)
    }
}

/// The whitespace-separated fields of `s`.
fn fields_of(s: &Vec<char>) -> (r: Vec<Vec<char>>)
    ensures
        crate::text::words_view(r@) == ws_fields(s@),
        forall|i: int| 0 <= i < r@.len() ==> r@[i]@.len() > 0,
{
    let mut r: Vec<Vec<char>> = Vec::new();
    let mut i: usize = 0;
    let mut in_field = false;
    assert(s@.take(0) =~= Seq::<char>::empty());
    while i < s.len()
        invariant
            i <= s@.len(),
            crate::text::words_view(r@) == ws_fields(s@.take(i as int)),
            forall|j: int| 0 <= j < r@.len() ==> r@[j]@.len() > 0,
            in_field == (i > 0 && !is_ws(s@[i - 1])),
            in_field ==> r@.len() > 0,
        decreases s.len() - i,
    {
        let c = s[i];
        let ghost r0 = r@;
        let ghost t = s@.take(i + 1);
        assert(t.drop_last() =~= s@.take(i as int));
        if is_whitespace(c) {
            in_field = false;
        } else if in_field {
            let k = r.len() - 1;
            let mut w = r[k].clone();
            w.push(c);
            r.set(k, w);
            assert(crate::text::words_view(r@) =~= crate::text::words_view(r0).update(k as int, crate::text::words_view(r0)[k as int].push(c)));
        } else {
            let mut w: Vec<char> = Vec::new();
            w.push(c);
            assert(w@ =~= seq![c]);
            r.push(w);
            in_field = true;
            assert(crate::text::words_view(r@) =~= crate::text::words_view(r0).push(seq![c]));
        }
        i += 1;
    }
    assert(s@.take(s@.len() as int) =~= s@);
    r
}

/// Where completing `line` looks (see `completion_of`).
pub fn completion_request(line: &str) -> (r: Completion)
    ensures
        completion_view(r) == completion_of(line@),
{
    let s = chars_of(line);
    let f = fields_of(&s);
    if s.len() > 0 && is_whitespace(s[s.len() - 1]) {
        Completion::WorkingDir
    } else if f.len() <= 1 {
        Completion::Nothing
    } else {
        let last = &f[f.len() - 1];
        assert(last@ == ws_fields(s@).last());
        let mut dir: Vec<char> = Vec::new();
        if last[0] != '/' {
            dir.push('.');
            dir.push('/');
        }
        let mut i: usize = 0;
        let ghost d0 = dir@;
        while i < last.len()
            invariant
                i <= last@.len(),
                dir@ == d0 + last@.take(i as int),
            decreases last.len() - i,
        {
            dir.push(last[i]);
            i += 1;
            assert(dir@ =~= d0 + last@.take(i as int));
        }
        assert(last@.take(last@.len() as int) =~= last@);
        assert(d0 + last@ =~= if last@[0] == '/' { last@ } else { seq!['.', '/'] + last@ });
        Completion::Search(string_of(&dir), string_of(last))
    }
}

/// An entry of a listed directory: its path as the listing gives it (the
/// directory joined with the name), its name, and whether it is a directory.
pub struct Entry {
    pub path: String,
    pub name: String,
    pub is_dir: bool,
}

/// `s` with a `/` added when `dir` holds.
pub open spec fn dir_marked(s: Seq<char>, dir: bool) -> Seq<char> {
    if dir { s.push('/') } else { s }
}

/// A path without a leading `./`.
pub open spec fn without_dot_slash(p: Seq<char>) -> Seq<char> {
    if p.len() >= 2 && p[0] == '.' && p[1] == '/' { p.skip(2) } else { p }
}

/// The candidates that `entries` give for a completion: the text that
/// replaces the field, and the text shown for each, in the listing's order.
pub open spec fn candidates_of(c: CompletionSpec, entries: Seq<(Seq<char>, Seq<char>, bool)>) -> (Seq<Seq<char>>, Seq<Seq<char>>)
    decreases entries.len(),
{
    if entries.len() == 0 {
        (Seq::empty(), Seq::empty())
    } else {
        let prev = candidates_of(c, entries.drop_last());
        let e = entries.last();
        match c {
            CompletionSpec::Nothing => prev,
            CompletionSpec::WorkingDir => (prev.0.push(dir_marked(e.1, e.2)), prev.1.push(dir_marked(e.1, e.2))),
            CompletionSpec::Search(_, prefix) => {
                let item = without_dot_slash(e.0);
                if has_prefix(item, prefix) {
                    (prev.0.push(dir_marked(item, e.2)), prev.1.push(dir_marked(e.1, e.2)))
                } else {
                    prev
                }
            },
        }
    }
}

pub open spec fn entries_view(v: Seq<Entry>) -> Seq<(Seq<char>, Seq<char>, bool)> {
    v.map_values(|e: Entry| (e.path@, e.name@, e.is_dir))
}

/// `s` with a `/` added when `dir` holds.
fn mark_dir(s: Vec<char>, dir: bool) -> (r: String)
    ensures
        r@ == dir_marked(s@, dir),
{
    let mut s = s;
    if dir {
        s.push('/');
    }
    string_of(&s)
}

/// The candidates that a listing gives (see `candidates_of`): the texts that
/// replace the field, and the texts shown.
pub fn candidates(request: &Completion, entries: &Vec<Entry>) -> (r: (Vec<String>, Vec<String>))
    ensures
        (strings_view(r.0@), strings_view(r.1@)) == candidates_of(completion_view(*request), entries_view(entries@)),
{
    let ghost c = completion_view(*request);
    let ghost ev = entries_view(entries@);
    let mut full: Vec<String> = Vec::new();
    let mut shown: Vec<String> = Vec::new();
    let mut i: usize = 0;
    assert(ev.take(0) =~= Seq::empty());
    while i < entries.len()
        invariant
            i <= entries@.len(),
            c == completion_view(*request),
            ev == entries_view(entries@),
            (strings_view(full@), strings_view(shown@)) == candidates_of(c, ev.take(i as int)),
        decreases entries.len() - i,
    {
        let e = &entries[i];
        let ghost f0 = full@;
        let ghost s0 = shown@;
        assert(ev.take(i + 1).drop_last() =~= ev.take(i as int));
        match request {
            Completion::Nothing => {},
            Completion::WorkingDir => {
                let n = chars_of(e.name.as_str());
                let a = mark_dir(n, e.is_dir);
                let n2 = chars_of(e.name.as_str());
                let b = mark_dir(n2, e.is_dir);
                full.push(a);
                shown.push(b);
                assert(strings_view(full@) =~= strings_view(f0).push(a@));
                assert(strings_view(shown@) =~= strings_view(s0).push(b@));
            },
            Completion::Search(_, prefix) => {
                let p = chars_of(e.path.as_str());
                let item = if p.len() >= 2 && p[0] == '.' && p[1] == '/' {
                    let mut it: Vec<char> = Vec::new();
                    let mut j: usize = 2;
                    while j < p.len()
                        invariant
                            2 <= j <= p@.len(),
                            it@ == p@.subrange(2, j as int),
                        decreases p.len() - j,
                    {
                        it.push(p[j]);
                        j += 1;
                        assert(it@ =~= p@.subrange(2, j as int));
                    }
                    assert(p@.subrange(2, p@.len() as int) =~= p@.skip(2));
                    it
                } else {
                    p
                };
                let pre = chars_of(prefix.as_str());
                if starts_with(&item, &pre) {
                    let a = mark_dir(item, e.is_dir);
                    let b = mark_dir(chars_of(e.name.as_str()), e.is_dir);
                    full.push(a);
                    shown.push(b);
                    assert(strings_view(full@) =~= strings_view(f0).push(a@));
                    assert(strings_view(shown@) =~= strings_view(s0).push(b@));
                }
            },
        }
        i += 1;
    }
    assert(ev.take(entries@.len() as int) =~= ev);
    (full, shown)
}

/// How many entries a search for `prefix` matches.
pub open spec fn matching_count(prefix: Seq<char>, entries: Seq<(Seq<char>, Seq<char>, bool)>) -> nat
    decreases entries.len(),
{
    if entries.len() == 0 {
        0
    } else {
        let rest = matching_count(prefix, entries.drop_last());
        if has_prefix(without_dot_slash(entries.last().0), prefix) {
            rest + 1
        } else {
            rest
        }
    }
}

/// A search gives one candidate, and one text shown, for each entry whose
/// path starts with the searched prefix: so exactly one such entry gives a
/// single candidate, and two or more give as many texts to show.
pub proof fn lemma_search_candidates(dir: Seq<char>, prefix: Seq<char>, entries: Seq<(Seq<char>, Seq<char>, bool)>)
    ensures
        candidates_of(CompletionSpec::Search(dir, prefix), entries).0.len() == matching_count(prefix, entries),
        candidates_of(CompletionSpec::Search(dir, prefix), entries).1.len() == matching_count(prefix, entries),
    decreases entries.len(),
{
    if entries.len() > 0 {
        lemma_search_candidates(dir, prefix, entries.drop_last());
    }
}

/// The line after completing its last field to `candidate`: after white
/// space the candidate is added as a new field, otherwise it replaces the
/// last field; the fields are joined by single spaces.
pub open spec fn completed_line(line: Seq<char>, candidate: Seq<char>) -> Seq<char> {
    let f = ws_fields(line);
    if ends_in_ws(line) || f.len() == 0 {
        join_fields(f.push(candidate))
    } else {
        join_fields(f.update(f.len() - 1, candidate))
    }
}

/// Fields joined by single spaces.
fn join(f: &Vec<Vec<char>>) -> (r: Vec<char>)
    ensures
        r@ == join_fields(crate::text::words_view(f@)),
{
    let ghost fv = crate::text::words_view(f@);
    let mut r: Vec<char> = Vec::new();
    let mut i: usize = 0;
    assert(fv.take(0) =~= Seq::empty());
    while i < f.len()
        invariant
            i <= f@.len(),
            fv == crate::text::words_view(f@),
            r@ == join_fields(fv.take(i as int)),
        decreases f.len() - i,
    {
        let ghost r0 = r@;
        assert(fv.take(i + 1).drop_last() =~= fv.take(i as int));
        if i > 0 {
            r.push(' ');
        }
        let w = &f[i];
        let mut j: usize = 0;
        let ghost r1 = r@;
        while j < w.len()
            invariant
                j <= w@.len(),
                r@ == r1 + w@.take(j as int),
            decreases w.len() - j,
        {
            r.push(w[j]);
            j += 1;
            assert(r@ =~= r1 + w@.take(j as int));
        }
        assert(w@.take(w@.len() as int) =~= w@);
        if i == 0 {
            assert(r@ =~= fv.take(1)[0]);
        }
        i += 1;
    }
    assert(fv.take(f@.len() as int) =~= fv);
    r
}

/// Completes the last field of `line` to `candidate` (see `completed_line`).
pub fn complete_line(line: &Vec<char>, candidate: &str) -> (r: Vec<char>)
    ensures
        r@ == completed_line(line@, candidate@),
{
    let mut f = fields_of(line);
    let c = chars_of(candidate);
    if (line.len() > 0 && is_whitespace(line[line.len() - 1])) || f.len() == 0 {
        f.push(c);
        assert(crate::text::words_view(f@) =~= ws_fields(line@).push(candidate@));
    } else {
        let ghost f0 = f@;
        let k = f.len() - 1;
        f.set(k, c);
        assert(crate::text::words_view(f@) =~= ws_fields(line@).update(k as int, candidate@));
    }
    join(&f)
}

} // verus!
