//! The split pass (fields and double quotes) and the assignment pass.

use vstd::prelude::*;
use crate::table::{Table, grew_from};
use crate::complete::join_fields;
use crate::text::{string_of, words_view};

verus! {

/// Where the split pass stands after a prefix of its input.
pub struct SplitState {
    /// The fields so far; the last one is still open while `in_field` holds.
    pub fields: Seq<Seq<char>>,
    pub in_field: bool,
    pub in_quote: bool,
}

pub open spec fn split_start() -> SplitState {
    SplitState { fields: Seq::empty(), in_field: false, in_quote: false }
}

/// `fields` with `c` added to its last field.
pub open spec fn extend_last(fields: Seq<Seq<char>>, c: char) -> Seq<Seq<char>> {
    fields.update(fields.len() - 1, fields.last().push(c))
}

/// One character of the split pass. Outside quotes a space closes the open
/// field; a double quote opens a field if none is open and starts a quoted
/// stretch, in which every character but the closing quote is taken as is.
pub open spec fn split_step(st: SplitState, c: char) -> SplitState {
    if st.in_quote {
        if c == '"' {
            SplitState { in_quote: false, ..st }
        } else {
            SplitState { fields: extend_last(st.fields, c), ..st }
        }
    } else if c == ' ' {
        SplitState { in_field: false, ..st }
    } else if c == '"' {
        if st.in_field {
            SplitState { in_quote: true, ..st }
        } else {
            SplitState { fields: st.fields.push(Seq::empty()), in_field: true, in_quote: true }
        }
    } else if st.in_field {
        SplitState { fields: extend_last(st.fields, c), ..st }
    } else {
        SplitState { fields: st.fields.push(seq![c]), in_field: true, in_quote: false }
    }
}

/// The split pass run over `text` from `pos` on, starting in state `st`.
pub open spec fn split_from(text: Seq<char>, pos: int, st: SplitState) -> SplitState
    decreases text.len() - pos,
{
    if pos < 0 || pos >= text.len() {
        st
    } else {
        split_from(text, pos + 1, split_step(st, text[pos]))
    }
}

/// The fields of `text`, split on runs of spaces with double quotes keeping
/// spaces; `None` where a quote is left open.
pub open spec fn split_fields(text: Seq<char>) -> Option<Seq<Seq<char>>> {
    let st = split_from(text, 0, split_start());
    if st.in_quote {
        None
    } else {
        Some(st.fields)
    }
}

/// The split state that the executable pass stands for.
spec fn split_abs(done: Seq<Vec<char>>, cur: Seq<char>, in_field: bool, in_quote: bool) -> SplitState {
    SplitState {
        fields: if in_field { words_view(done).push(cur) } else { words_view(done) },
        in_field,
        in_quote,
    }
}

/// Splits `text` into fields (see `split_fields`).
pub fn split_words(text: &Vec<char>) -> (r: Option<Vec<Vec<char>>>)
    ensures
        match r {
            Some(w) => split_fields(text@) == Some(words_view(w@)),
            None => split_fields(text@).is_none(),
        },
{
    let mut done: Vec<Vec<char>> = Vec::new();
    let mut cur: Vec<char> = Vec::new();
    let mut in_field = false;
    let mut in_quote = false;
    let mut i: usize = 0;
    assert(words_view(done@) =~= Seq::empty());
    while i < text.len()
        invariant
            i <= text@.len(),
            in_quote ==> in_field,
            !in_field ==> cur@.len() == 0,
            split_from(text@, 0, split_start()) == split_from(
                text@,
                i as int,
                split_abs(done@, cur@, in_field, in_quote),
            ),
        decreases text.len() - i,
    {
        let c = text[i];
        let ghost before = split_abs(done@, cur@, in_field, in_quote);
        let ghost d0 = done@;
        let ghost c0 = cur@;
        if in_quote {
            if c == '"' {
                in_quote = false;
            } else {
                cur.push(c);
            }
        } else if c == ' ' {
            if in_field {
                done.push(cur);
                cur = Vec::new();
                in_field = false;
            }
        } else if c == '"' {
            in_field = true;
            in_quote = true;
        } else {
            cur.push(c);
            in_field = true;
        }
        proof {
            let after = split_abs(done@, cur@, in_field, in_quote);
            let wd = words_view(d0);
            if !before.in_quote && c == ' ' && before.in_field {
                assert(words_view(done@) =~= wd.push(c0));
            } else {
                assert(words_view(done@) =~= wd);
            }
            if !before.in_field {
                assert(c0 =~= Seq::<char>::empty());
                assert(c0.push(c) =~= seq![c]);
            }
            assert(after.fields =~= split_step(before, c).fields);
        }
        i += 1;
    }
    if in_quote {
        None
    } else {
        if in_field {
            done.push(cur);
        }
        proof {
            assert(words_view(done@) =~= split_abs(done@, Seq::empty(), false, false).fields);
        }
        Some(done)
    }
}

/// Whether a field has the shape of an assignment, `^\w+=` in regex syntax:
/// a run of word characters followed at once by `=`.
pub uninterp spec fn assignment_shape(field: Seq<char>) -> bool;

/// Relies on `regex::Regex::new` and `regex::Regex::is_match`: whether the
/// field matches `^\w+=` (one or more word characters, then `=`; the value
/// after it may be empty). A match holds an `=`.
#[verifier::external_body]
pub(crate) fn is_assignment(field: &str) -> (r: bool)
    ensures
        r == assignment_shape(field@),
        r ==> field@.contains('='),
{
    regex::Regex::new(r"^\w+=").unwrap().is_match(field)
}

/// Whether `k` is the index of the first `=` in `s`.
pub open spec fn first_eq_at(s: Seq<char>, k: int) -> bool {
    0 <= k < s.len() && s[k] == '=' && forall|j: int| 0 <= j < k ==> s[j] != '='
}

/// The index of the first `=` of a field that holds one.
pub open spec fn first_eq(s: Seq<char>) -> int {
    choose|k: int| first_eq_at(s, k)
}

/// The name that an assignment field binds: the text before its first `=`.
pub open spec fn assigned_name(s: Seq<char>) -> Seq<char> {
    s.take(first_eq(s))
}

/// The value that an assignment field binds: the text after its first `=`.
pub open spec fn assigned_value(s: Seq<char>) -> Seq<char> {
    s.skip(first_eq(s) + 1)
}

/// The assignment pass over `fields[i..]`: a field marked in `shapes` that
/// holds an `=` binds its name to its value and is dropped; the others are
/// kept, in order, after `kept`. The result is the bindings and the kept fields.
pub open spec fn assign_from(
    vars: Map<Seq<char>, Seq<char>>,
    fields: Seq<Seq<char>>,
    shapes: Seq<bool>,
    i: int,
    kept: Seq<Seq<char>>,
) -> (Map<Seq<char>, Seq<char>>, Seq<Seq<char>>)
    decreases fields.len() - i,
{
    if i < 0 || i >= fields.len() {
        (vars, kept)
    } else if shapes[i] && fields[i].contains('=') {
        assign_from(
            vars.insert(assigned_name(fields[i]), assigned_value(fields[i])),
            fields,
            shapes,
            i + 1,
            kept,
        )
    } else {
        assign_from(vars, fields, shapes, i + 1, kept.push(fields[i]))
    }
}

/// Where `s` holds an `=`, the index of the first one.
fn find_eq(s: &Vec<char>) -> (r: usize)
    requires
        s@.contains('='),
    ensures
        first_eq_at(s@, r as int),
        r as int == first_eq(s@),
{
    let mut i: usize = 0;
    while i < s.len()
        invariant
            s@.contains('='),
            i <= s@.len(),
            forall|j: int| 0 <= j < i ==> s@[j] != '=',
        decreases s.len() - i,
    {
        if s[i] == '=' {
            proof {
                let k = first_eq(s@);
                assert(first_eq_at(s@, i as int));
                assert(first_eq_at(s@, k));
                if k < i {
                    assert(s@[k] != '=');
                } else if k > i {
                    assert(s@[i as int] != '=');
                }
            }
            return i;
        }
        i += 1;
    }
    assert(false);
    0
}

/// Applies the assignment fields of `fields` to `vars`, given for each field
/// whether it has the shape of an assignment, and returns the other fields.
pub fn apply_assignments(vars: &mut Table, fields: Vec<Vec<char>>, shapes: &Vec<bool>) -> (r: Vec<Vec<char>>)
    requires
        shapes@.len() == fields@.len(),
    ensures
        (final(vars)@, words_view(r@)) == assign_from(old(vars)@, words_view(fields@), shapes@, 0, Seq::empty()),
        grew_from(*final(vars), *old(vars)),
{
    let ghost fv = words_view(fields@);
    let mut kept: Vec<Vec<char>> = Vec::new();
    let mut i: usize = 0;
    assert(words_view(kept@) =~= Seq::empty());
    while i < fields.len()
        invariant
            fv == words_view(fields@),
            shapes@.len() == fields@.len(),
            i <= fields@.len(),
            assign_from(old(vars)@, fv, shapes@, 0, Seq::empty()) == assign_from(
                vars@,
                fv,
                shapes@,
                i as int,
                words_view(kept@),
            ),
            grew_from(*vars, *old(vars)),
        decreases fields.len() - i,
    {
        let f = &fields[i];
        let mut eq = false;
        if shapes[i] {
            let mut j: usize = 0;
            while j < f.len()
                invariant
                    j <= f@.len(),
                    !eq ==> forall|k: int| 0 <= k < j ==> f@[k] != '=',
                    eq ==> f@.contains('='),
                decreases f.len() - j,
            {
                if f[j] == '=' {
                    eq = true;
                }
                j += 1;
            }
            assert(eq == f@.contains('='));
        }
        if eq {
            let k = find_eq(f);
            let mut name: Vec<char> = Vec::new();
            let mut value: Vec<char> = Vec::new();
            let mut j: usize = 0;
            while j < f.len()
                invariant
                    k < f@.len(),
                    j <= f@.len(),
                    j <= k ==> name@ == f@.take(j as int) && value@.len() == 0,
                    j > k ==> name@ == f@.take(k as int) && value@ == f@.subrange(k + 1, j as int),
                decreases f.len() - j,
            {
                if j < k {
                    name.push(f[j]);
                } else if j > k {
                    value.push(f[j]);
                }
                j += 1;
                assert(name@ =~= f@.take(if j <= k { j as int } else { k as int }));
                if j > k {
                    assert(value@ =~= f@.subrange(k + 1, j as int));
                }
            }
            assert(value@ =~= f@.skip(k + 1));
            vars.bind(name, value);
        } else {
            let ghost k0 = kept@;
            let g = f.clone();
            assert(g@ == f@);
            kept.push(g);
            assert(words_view(kept@) =~= words_view(k0).push(fv[i as int]));
        }
        i += 1;
    }
    kept
}

/// A field that the split pass gives back as it is: not empty, with no
/// space and no double quote.
pub open spec fn plain_field(w: Seq<char>) -> bool {
    w.len() > 0 && !w.contains(' ') && !w.contains('"')
}

/// Running the split pass over `a + b` is running it over `a`, then over `b`.
proof fn lemma_split_concat(a: Seq<char>, b: Seq<char>, i: int, st: SplitState)
    requires
        0 <= i <= a.len(),
    ensures
        split_from(a + b, i, st) == split_from(b, 0, split_from(a, i, st)),
    decreases a.len() - i,
{
    if i < a.len() {
        assert((a + b)[i] == a[i]);
        lemma_split_concat(a, b, i + 1, split_step(st, a[i]));
    } else {
        lemma_split_suffix(a, b, 0, st);
    }
}

/// Past the end of `a`, the split pass over `a + b` runs over `b`.
proof fn lemma_split_suffix(a: Seq<char>, b: Seq<char>, j: int, st: SplitState)
    requires
        0 <= j <= b.len(),
    ensures
        split_from(a + b, a.len() + j, st) == split_from(b, j, st),
    decreases b.len() - j,
{
    if j < b.len() {
        assert((a + b)[a.len() + j] == b[j]);
        lemma_split_suffix(a, b, j + 1, split_step(st, b[j]));
    }
}

/// Inside a plain field, the split pass adds the rest of it to the open field.
proof fn lemma_split_word_from(w: Seq<char>, g: Seq<Seq<char>>, i: int)
    requires
        plain_field(w),
        1 <= i <= w.len(),
    ensures
        split_from(w, i, SplitState { fields: g.push(w.take(i)), in_field: true, in_quote: false })
            == (SplitState { fields: g.push(w), in_field: true, in_quote: false }),
    decreases w.len() - i,
{
    if i < w.len() {
        let st = SplitState { fields: g.push(w.take(i)), in_field: true, in_quote: false };
        assert(w[i] != ' ' && w[i] != '"') by {
            if w[i] == ' ' {
                assert(w.contains(' '));
            }
            if w[i] == '"' {
                assert(w.contains('"'));
            }
        }
        assert(w.take(i).push(w[i]) =~= w.take(i + 1));
        assert(g.push(w.take(i)).last() == w.take(i));
        assert(split_step(st, w[i]).fields =~= g.push(w.take(i + 1)));
        lemma_split_word_from(w, g, i + 1);
    } else {
        assert(w.take(i) =~= w);
    }
}

/// From outside any field, the split pass over a plain field adds it.
proof fn lemma_split_word(w: Seq<char>, g: Seq<Seq<char>>)
    requires
        plain_field(w),
    ensures
        split_from(w, 0, SplitState { fields: g, in_field: false, in_quote: false })
            == (SplitState { fields: g.push(w), in_field: true, in_quote: false }),
{
    assert(w[0] != ' ' && w[0] != '"') by {
        if w[0] == ' ' {
            assert(w.contains(' '));
        }
        if w[0] == '"' {
            assert(w.contains('"'));
        }
    }
    assert(w.take(1) =~= seq![w[0]]);
    lemma_split_word_from(w, g, 1);
}

/// The split pass over plain fields joined by single spaces ends with those
/// fields.
pub(crate) proof fn lemma_split_joined(f: Seq<Seq<char>>)
    requires
        forall|k: int| 0 <= k < f.len() ==> plain_field(#[trigger] f[k]),
    ensures
        split_from(join_fields(f), 0, split_start())
            == (SplitState { fields: f, in_field: f.len() > 0, in_quote: false }),
    decreases f.len(),
{
    if f.len() == 0 {
        assert(split_start().fields =~= f);
    } else if f.len() == 1 {
        lemma_split_word(f[0], Seq::empty());
        assert(Seq::<Seq<char>>::empty().push(f[0]) =~= f);
    } else {
        let g = f.drop_last();
        let w = f.last();
        assert forall|k: int| 0 <= k < g.len() implies plain_field(#[trigger] g[k]) by {
            assert(g[k] == f[k]);
        }
        lemma_split_joined(g);
        let head = join_fields(g) + seq![' '];
        lemma_split_concat(head, w, 0, split_start());
        lemma_split_concat(join_fields(g), seq![' '], 0, split_start());
        assert(split_from(seq![' '], 0, SplitState { fields: g, in_field: true, in_quote: false })
            == split_from(seq![' '], 1, SplitState { fields: g, in_field: false, in_quote: false }));
        lemma_split_word(w, g);
        assert(g.push(w) =~= f);
    }
}

/// Splitting a line, joining its fields with single spaces and splitting
/// again gives the same fields, where every field is plain: not empty, with
/// no space and no double quote.
pub proof fn lemma_split_rejoin(text: Seq<char>)
    requires
        split_fields(text) is Some,
        forall|k: int|
            0 <= k < split_fields(text)->Some_0.len() ==> plain_field(#[trigger] split_fields(text)->Some_0[k]),
    ensures
        split_fields(join_fields(split_fields(text)->Some_0)) == split_fields(text),
{
    lemma_split_joined(split_fields(text)->Some_0);
}

} // verus!
