//! The substitution pass and the whole evaluation of a command line.
//!
//! A command substitution `$(...)` needs the output of a program. The
//! evaluation does not run programs: it is handed the outputs gathered so far,
//! in the order in which the substitutions come, and where it needs one more
//! it stops and names the command to run. Run again with that output added,
//! it goes one step further.

use vstd::prelude::*;
use crate::table::{Table, grew_from};
use crate::text::{chars_of, same_chars, string_of, words_view};
use crate::complete::join_fields;
use crate::tokenize::{
    apply_assignments, assign_from, assignment_shape, is_assignment, lemma_split_joined, plain_field,
    split_fields, split_words,
};

verus! {

/// Whether a character is alphanumeric in Unicode's sense.
pub uninterp spec fn alnum(c: char) -> bool;

/// Relies on `char::is_alphanumeric`: whether `c` is Alphabetic or Numeric.
#[verifier::external_body]
fn is_alnum(c: char) -> (r: bool)
    ensures
        r == alnum(c),
{
    c.is_alphanumeric()
}

/// The value of a variable, or nothing where it is unset.
pub open spec fn value_or_empty(vars: Map<Seq<char>, Seq<char>>, name: Seq<char>) -> Seq<char> {
    if vars.contains_key(name) {
        vars[name]
    } else {
        Seq::empty()
    }
}

/// Scanning `text` from `i` with `depth` parentheses open, the index just past
/// the one that closes them all, or the end of `text`.
pub open spec fn paren_scan(text: Seq<char>, i: int, depth: int) -> int
    decreases text.len() - i,
{
    if i < 0 || i >= text.len() {
        text.len() as int
    } else {
        let d = if text[i] == '(' {
            depth + 1
        } else if text[i] == ')' {
            depth - 1
        } else {
            depth
        };
        if d <= 0 {
            i + 1
        } else {
            paren_scan(text, i + 1, d)
        }
    }
}

/// The index of the first `}` at or after `i`, or the end of `text`.
pub open spec fn brace_scan(text: Seq<char>, i: int) -> int
    decreases text.len() - i,
{
    if i < 0 || i >= text.len() {
        text.len() as int
    } else if text[i] == '}' {
        i
    } else {
        brace_scan(text, i + 1)
    }
}

/// The end of the run of alphanumeric characters that starts at `i`.
pub open spec fn alnum_scan(text: Seq<char>, i: int) -> int
    decreases text.len() - i,
{
    if i < 0 || i >= text.len() {
        text.len() as int
    } else if !alnum(text[i]) {
        i
    } else {
        alnum_scan(text, i + 1)
    }
}

/// `x` brought into `lo..=hi`. The scans above stay there already; bounding
/// them here makes the progress of the recursion evident.
pub open spec fn within(x: int, lo: int, hi: int) -> int {
    if x < lo {
        lo
    } else if x > hi {
        hi
    } else {
        x
    }
}

/// Whether a finished substitution command is run for its output: it has a
/// command, and the command is not `cd` or `alias`, which print nothing.
pub open spec fn runs_for_output(words: Seq<Seq<char>>) -> bool {
    words.len() > 0 && words[0] != "cd"@ && words[0] != "alias"@
}

/// The outcome of the substitution pass.
pub struct SubstOut {
    pub text: Seq<char>,
    pub vars: Map<Seq<char>, Seq<char>>,
    /// How many of the given outputs were spliced in.
    pub used: nat,
    /// The command whose output is needed next, where the given ones ran out.
    pub pending: Option<Seq<Seq<char>>>,
}

/// What evaluating a line comes to.
pub enum EvalResult {
    Words(Seq<Seq<char>>),
    Unterminated,
    Pending(Seq<Seq<char>>),
}

/// The outcome of evaluating a line.
pub struct EvalOut {
    pub result: EvalResult,
    pub vars: Map<Seq<char>, Seq<char>>,
    pub used: nat,
}

/// The substitution pass over `text[pos..]`, with `acc` the text produced so
/// far, `outs` the outputs of substitution commands and `used` how many of
/// them were spliced in already. `$(cmd)` splices the output of `cmd`, `${name}`
/// and `$name` (a run of alphanumeric characters) the value of a variable, or
/// nothing where it is unset; a newline is dropped; all else is copied.
pub open spec fn subst_from(
    vars: Map<Seq<char>, Seq<char>>,
    text: Seq<char>,
    pos: int,
    acc: Seq<char>,
    outs: Seq<Seq<char>>,
    used: nat,
) -> SubstOut
    decreases text.len(), text.len() - pos,
{
    if pos < 0 || pos >= text.len() {
        SubstOut { text: acc, vars, used, pending: None }
    } else if text[pos] == '$' {
        if pos + 1 >= text.len() {
            SubstOut { text: acc, vars, used, pending: None }
        } else if text[pos + 1] == '(' {
            let end = within(paren_scan(text, pos + 2, 1), pos + 2, text.len() as int);
            let inner = text.subrange(pos + 2, if end > pos + 2 { end - 1 } else { pos + 2 });
            let e = evaluate_from(vars, inner, outs, used);
            match e.result {
                EvalResult::Pending(cmd) => SubstOut {
                    text: acc,
                    vars: e.vars,
                    used: e.used,
                    pending: Some(cmd),
                },
                EvalResult::Words(w) => {
                    if !runs_for_output(w) {
                        subst_from(e.vars, text, end, acc, outs, e.used)
                    } else if e.used < outs.len() {
                        subst_from(e.vars, text, end, acc + outs[e.used as int], outs, e.used + 1)
                    } else {
                        SubstOut { text: acc, vars: e.vars, used: e.used, pending: Some(w) }
                    }
                },
                EvalResult::Unterminated => subst_from(e.vars, text, end, acc, outs, e.used),
            }
        } else if text[pos + 1] == '{' {
            let close = within(brace_scan(text, pos + 2), pos + 2, text.len() as int);
            let next = if close < text.len() { close + 1 } else { close };
            subst_from(
                vars,
                text,
                next,
                acc + value_or_empty(vars, text.subrange(pos + 2, close)),
                outs,
                used,
            )
        } else {
            let end = within(alnum_scan(text, pos + 1), pos + 1, text.len() as int);
            subst_from(
                vars,
                text,
                end,
                acc + value_or_empty(vars, text.subrange(pos + 1, end)),
                outs,
                used,
            )
        }
    } else if text[pos] == '\n' {
        subst_from(vars, text, pos + 1, acc, outs, used)
    } else {
        subst_from(vars, text, pos + 1, acc.push(text[pos]), outs, used)
    }
}

/// Evaluation of a whole line: the substitution pass, then the split pass,
/// then the assignment pass.
pub open spec fn evaluate_from(
    vars: Map<Seq<char>, Seq<char>>,
    text: Seq<char>,
    outs: Seq<Seq<char>>,
    used: nat,
) -> EvalOut
    decreases text.len(), text.len() + 1,
{
    let s = subst_from(vars, text, 0, Seq::empty(), outs, used);
    match s.pending {
        Some(cmd) => EvalOut { result: EvalResult::Pending(cmd), vars: s.vars, used: s.used },
        None => match split_fields(s.text) {
            None => EvalOut { result: EvalResult::Unterminated, vars: s.vars, used: s.used },
            Some(f) => {
                let a = assign_from(
                    s.vars,
                    f,
                    shapes_of(f),
                    0,
                    Seq::empty(),
                );
                EvalOut { result: EvalResult::Words(a.1), vars: a.0, used: s.used }
            },
        },
    }
}

fn paren_end(text: &Vec<char>, start: usize) -> (r: usize)
    requires
        start <= text@.len(),
    ensures
        r == paren_scan(text@, start as int, 1),
        start <= r <= text@.len(),
{
    let mut i: usize = start;
    // one less than the number of open parentheses
    let mut extra: usize = 0;
    while i < text.len()
        invariant
            start <= i <= text@.len(),
            extra <= i - start,
            paren_scan(text@, start as int, 1) == paren_scan(text@, i as int, extra + 1),
        decreases text.len() - i,
    {
        if text[i] == '(' {
            extra += 1;
        } else if text[i] == ')' {
            if extra == 0 {
                return i + 1;
            }
            extra -= 1;
        }
        i += 1;
    }
    i
}

fn brace_end(text: &Vec<char>, start: usize) -> (r: usize)
    requires
        start <= text@.len(),
    ensures
        r == brace_scan(text@, start as int),
        start <= r <= text@.len(),
{
    let mut i: usize = start;
    while i < text.len() && text[i] != '}'
        invariant
            start <= i <= text@.len(),
            brace_scan(text@, start as int) == brace_scan(text@, i as int),
        decreases text.len() - i,
    {
        i += 1;
    }
    i
}

fn alnum_end(text: &Vec<char>, start: usize) -> (r: usize)
    requires
        start <= text@.len(),
    ensures
        r == alnum_scan(text@, start as int),
        start <= r <= text@.len(),
{
    let mut i: usize = start;
    while i < text.len() && is_alnum(text[i])
        invariant
            start <= i <= text@.len(),
            alnum_scan(text@, start as int) == alnum_scan(text@, i as int),
        decreases text.len() - i,
    {
        i += 1;
    }
    i
}

/// `text[from..to]`.
fn slice_of(text: &Vec<char>, from: usize, to: usize) -> (r: Vec<char>)
    requires
        from <= to <= text@.len(),
    ensures
        r@ == text@.subrange(from as int, to as int),
{
    let mut r: Vec<char> = Vec::new();
    let mut i: usize = from;
    while i < to
        invariant
            from <= i <= to <= text@.len(),
            r@ == text@.subrange(from as int, i as int),
        decreases to - i,
    {
        r.push(text[i]);
        i += 1;
        assert(r@ =~= text@.subrange(from as int, i as int));
    }
    r
}

/// Adds the characters of `tail` to `v`.
fn push_all(v: &mut Vec<char>, tail: &Vec<char>)
    ensures
        final(v)@ == old(v)@ + tail@,
{
    let mut i: usize = 0;
    while i < tail.len()
        invariant
            i <= tail@.len(),
            v@ == old(v)@ + tail@.take(i as int),
        decreases tail.len() - i,
    {
        v.push(tail[i]);
        i += 1;
        assert(v@ =~= old(v)@ + tail@.take(i as int));
    }
    assert(tail@.take(tail@.len() as int) =~= tail@);
}

/// The executable form of `EvalResult`.
pub(crate) enum Eval {
    Words(Vec<Vec<char>>),
    Unterminated,
    Pending(Vec<Vec<char>>),
}

pub(crate) open spec fn eval_view(e: Eval) -> EvalResult {
    match e {
        Eval::Words(w) => EvalResult::Words(words_view(w@)),
        Eval::Unterminated => EvalResult::Unterminated,
        Eval::Pending(w) => EvalResult::Pending(words_view(w@)),
    }
}

pub(crate) open spec fn pending_view(p: Option<Vec<Vec<char>>>) -> Option<Seq<Seq<char>>> {
    match p {
        Some(w) => Some(words_view(w@)),
        None => None,
    }
}

/// The executable form of `SubstOut`, less the variables.
struct Substituted {
    text: Vec<char>,
    used: usize,
    pending: Option<Vec<Vec<char>>>,
}

/// Whether `words` is a command run for its output (see `runs_for_output`).
fn runs_for_output_exec(words: &Vec<Vec<char>>) -> (r: bool)
    ensures
        r == runs_for_output(words_view(words@)),
{
    if words.len() == 0 {
        return false;
    }
    let cd = chars_of("cd");
    let alias = chars_of("alias");
    !same_chars(&words[0], &cd) && !same_chars(&words[0], &alias)
}

/// The substitution pass (see `subst_from`).
fn substitute(vars: &mut Table, text: &Vec<char>, outs: &Vec<Vec<char>>, used0: usize) -> (r: Substituted)
    requires
        used0 <= outs@.len(),
    ensures
        ({
            let s = subst_from(old(vars)@, text@, 0, Seq::empty(), words_view(outs@), used0 as nat);
            &&& r.text@ == s.text
            &&& final(vars)@ == s.vars
            &&& r.used == s.used
            &&& pending_view(r.pending) == s.pending
        }),
        r.used <= outs@.len(),
        grew_from(*final(vars), *old(vars)),
    decreases text@.len(), 0nat,
{
    let ghost ov = words_view(outs@);
    let mut res: Vec<char> = Vec::new();
    let mut used = used0;
    let mut pos: usize = 0;
    let n = text.len();
    while pos < n
        invariant
            n == text@.len(),
            ov == words_view(outs@),
            pos <= n,
            used <= outs@.len(),
            subst_from(old(vars)@, text@, 0, Seq::empty(), ov, used0 as nat) == subst_from(
                vars@,
                text@,
                pos as int,
                res@,
                ov,
                used as nat,
            ),
            grew_from(*vars, *old(vars)),
        decreases n - pos,
    {
        let c = text[pos];
        if c == '$' {
            if pos + 1 >= n {
                pos = n;
            } else if text[pos + 1] == '(' {
                let end = paren_end(text, pos + 2);
                let stop = if end > pos + 2 { end - 1 } else { pos + 2 };
                let inner = slice_of(text, pos + 2, stop);
                let (e, u) = eval_words(vars, &inner, outs, used);
                match e {
                    Eval::Pending(cmd) => {
                        return Substituted { text: res, used: u, pending: Some(cmd) };
                    },
                    Eval::Words(w) => {
                        if !runs_for_output_exec(&w) {
                            used = u;
                        } else if u < outs.len() {
                            push_all(&mut res, &outs[u]);
                            used = u + 1;
                        } else {
                            return Substituted { text: res, used: u, pending: Some(w) };
                        }
                    },
                    Eval::Unterminated => {
                        used = u;
                    },
                }
                pos = end;
            } else if text[pos + 1] == '{' {
                let close = brace_end(text, pos + 2);
                let name = slice_of(text, pos + 2, close);
                if let Some(v) = vars.lookup(&name) {
                    push_all(&mut res, &v);
                } else {
                    assert(res@ + Seq::<char>::empty() =~= res@);
                }
                pos = if close < n { close + 1 } else { close };
            } else {
                let end = alnum_end(text, pos + 1);
                let name = slice_of(text, pos + 1, end);
                if let Some(v) = vars.lookup(&name) {
                    push_all(&mut res, &v);
                } else {
                    assert(res@ + Seq::<char>::empty() =~= res@);
                }
                pos = end;
            }
        } else if c == '\n' {
            pos += 1;
        } else {
            res.push(c);
            pos += 1;
        }
    }
    Substituted { text: res, used, pending: None }
}

/// Evaluation of a whole line (see `evaluate_from`).
pub(crate) fn eval_words(vars: &mut Table, text: &Vec<char>, outs: &Vec<Vec<char>>, used: usize) -> (r: (Eval, usize))
    requires
        used <= outs@.len(),
    ensures
        ({
            let e = evaluate_from(old(vars)@, text@, words_view(outs@), used as nat);
            &&& eval_view(r.0) == e.result
            &&& final(vars)@ == e.vars
            &&& r.1 == e.used
        }),
        r.1 <= outs@.len(),
        grew_from(*final(vars), *old(vars)),
    decreases text@.len(), 1nat,
{
    let s = substitute(vars, text, outs, used);
    if let Some(cmd) = s.pending {
        return (Eval::Pending(cmd), s.used);
    }
    match split_words(&s.text) {
        None => (Eval::Unterminated, s.used),
        Some(fields) => {
            let ghost before = *vars;
            let mut shapes: Vec<bool> = Vec::new();
            let mut i: usize = 0;
            while i < fields.len()
                invariant
                    i <= fields@.len(),
                    shapes@.len() == i,
                    forall|j: int| 0 <= j < i ==> shapes@[j] == assignment_shape(fields@[j]@),
                decreases fields.len() - i,
            {
                let f = string_of(&fields[i]);
                shapes.push(is_assignment(f.as_str()));
                i += 1;
            }
            let ghost fv = words_view(fields@);
            assert(shapes@ =~= shapes_of(fv));
            let kept = apply_assignments(vars, fields, &shapes);
            (Eval::Words(kept), s.used)
        },
    }
}

/// Whether each field has the shape of an assignment.
pub open spec fn shapes_of(f: Seq<Seq<char>>) -> Seq<bool> {
    f.map_values(|w: Seq<char>| assignment_shape(w))
}

/// A word that evaluation gives back as it is: a plain field (see
/// `plain_field`) with no `$` and no newline.
pub open spec fn plain_word(w: Seq<char>) -> bool {
    plain_field(w) && !w.contains('$') && !w.contains('\n')
}

/// A field that the assignment pass keeps: it is not an assignment.
pub open spec fn kept_field(w: Seq<char>) -> bool {
    !(assignment_shape(w) && w.contains('='))
}

/// Over text with no `$` and no newline, the substitution pass copies the
/// text and changes nothing.
proof fn lemma_subst_literal(
    vars: Map<Seq<char>, Seq<char>>,
    t: Seq<char>,
    pos: int,
    acc: Seq<char>,
    outs: Seq<Seq<char>>,
    used: nat,
)
    requires
        0 <= pos <= t.len(),
        forall|i: int| 0 <= i < t.len() ==> t[i] != '$' && t[i] != '\n',
    ensures
        subst_from(vars, t, pos, acc, outs, used) == (SubstOut { text: acc + t.skip(pos), vars, used, pending: None }),
    decreases t.len() - pos,
{
    if pos < t.len() {
        lemma_subst_literal(vars, t, pos + 1, acc.push(t[pos]), outs, used);
        assert(acc.push(t[pos]) + t.skip(pos + 1) =~= acc + t.skip(pos));
    } else {
        assert(acc + t.skip(pos) =~= acc);
    }
}

/// Fields joined by spaces hold a character other than a space only where a
/// field holds it.
proof fn lemma_join_free(v: Seq<Seq<char>>, c: char)
    requires
        c != ' ',
        forall|k: int| 0 <= k < v.len() ==> !(#[trigger] v[k]).contains(c),
    ensures
        forall|i: int| 0 <= i < join_fields(v).len() ==> join_fields(v)[i] != c,
    decreases v.len(),
{
    if v.len() == 1 {
        assert forall|i: int| 0 <= i < join_fields(v).len() implies join_fields(v)[i] != c by {
            if v[0][i] == c {
                assert(v[0].contains(c));
            }
        }
    } else if v.len() > 1 {
        let g = v.drop_last();
        let w = v.last();
        assert forall|k: int| 0 <= k < g.len() implies !(#[trigger] g[k]).contains(c) by {
            assert(g[k] == v[k]);
        }
        assert(!v[v.len() - 1].contains(c));
        lemma_join_free(g, c);
        let j = join_fields(g);
        assert(join_fields(v) == j + seq![' '] + w);
        assert forall|i: int| 0 <= i < join_fields(v).len() implies join_fields(v)[i] != c by {
            if i > j.len() {
                let k = i - j.len() - 1;
                if w[k] == c {
                    assert(w.contains(c));
                }
            }
        }
    }
}

/// The assignment pass keeps only fields that are not assignments.
proof fn lemma_assign_kept(
    vars: Map<Seq<char>, Seq<char>>,
    f: Seq<Seq<char>>,
    i: int,
    kept: Seq<Seq<char>>,
)
    requires
        0 <= i <= f.len(),
        forall|k: int| 0 <= k < kept.len() ==> kept_field(#[trigger] kept[k]),
    ensures
        forall|k: int|
            0 <= k < assign_from(vars, f, shapes_of(f), i, kept).1.len()
                ==> kept_field(
                #[trigger] assign_from(vars, f, shapes_of(f), i, kept).1[k],
            ),
    decreases f.len() - i,
{
    let shapes = shapes_of(f);
    if i < f.len() {
        assert(shapes[i] == assignment_shape(f[i]));
        if shapes[i] && f[i].contains('=') {
            let v2 = vars.insert(crate::tokenize::assigned_name(f[i]), crate::tokenize::assigned_value(f[i]));
            assert(assign_from(vars, f, shapes, i, kept) == assign_from(v2, f, shapes, i + 1, kept));
            lemma_assign_kept(v2, f, i + 1, kept);
        } else {
            let k2 = kept.push(f[i]);
            assert forall|k: int| 0 <= k < k2.len() implies kept_field(#[trigger] k2[k]) by {
                if k < kept.len() {
                    assert(k2[k] == kept[k]);
                }
            }
            assert(assign_from(vars, f, shapes, i, kept) == assign_from(vars, f, shapes, i + 1, k2));
            lemma_assign_kept(vars, f, i + 1, k2);
        }
    }
}

/// The assignment pass over fields that are none of them assignments keeps
/// them all and binds nothing.
proof fn lemma_assign_none(vars: Map<Seq<char>, Seq<char>>, f: Seq<Seq<char>>, i: int)
    requires
        0 <= i <= f.len(),
        forall|k: int| 0 <= k < f.len() ==> kept_field(#[trigger] f[k]),
    ensures
        assign_from(vars, f, shapes_of(f), i, f.take(i)) == (vars, f),
    decreases f.len() - i,
{
    if i < f.len() {
        assert(kept_field(f[i]));
        assert(f.take(i).push(f[i]) =~= f.take(i + 1));
        lemma_assign_none(vars, f, i + 1);
    } else {
        assert(f.take(i) =~= f);
    }
}

/// Evaluating a line, joining the words it gives with single spaces and
/// evaluating that again gives the same words, where every word is plain
/// (not empty, with no space, double quote, `$` or newline). The second
/// evaluation binds nothing and runs nothing, whatever the variables and
/// outputs it is given.
pub proof fn lemma_evaluate_rejoin(
    vars: Map<Seq<char>, Seq<char>>,
    text: Seq<char>,
    outs: Seq<Seq<char>>,
    vars2: Map<Seq<char>, Seq<char>>,
    outs2: Seq<Seq<char>>,
)
    requires
        evaluate_from(vars, text, outs, 0).result is Words,
        forall|k: int|
            0 <= k < evaluate_from(vars, text, outs, 0).result->Words_0.len() ==> plain_word(
                #[trigger] evaluate_from(vars, text, outs, 0).result->Words_0[k],
            ),
    ensures
        evaluate_from(vars2, join_fields(evaluate_from(vars, text, outs, 0).result->Words_0), outs2, 0)
            == (EvalOut { result: evaluate_from(vars, text, outs, 0).result, vars: vars2, used: 0 }),
{
    let s = subst_from(vars, text, 0, Seq::empty(), outs, 0);
    let f = split_fields(s.text)->Some_0;
    lemma_assign_kept(s.vars, f, 0, Seq::empty());
    let v = evaluate_from(vars, text, outs, 0).result->Words_0;
    assert(forall|k: int| 0 <= k < v.len() ==> kept_field(#[trigger] v[k]));
    assert(forall|k: int| 0 <= k < v.len() ==> plain_field(#[trigger] v[k]));
    let t = join_fields(v);
    lemma_join_free(v, '$');
    lemma_join_free(v, '\n');
    lemma_subst_literal(vars2, t, 0, Seq::empty(), outs2, 0);
    assert(Seq::<char>::empty() + t.skip(0) =~= t);
    lemma_split_joined(v);
    assert(v.take(0) =~= Seq::<Seq<char>>::empty());
    lemma_assign_none(vars2, v, 0);
}

} // verus!
