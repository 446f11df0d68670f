//! The line editor: a state machine from key events to an edited line.
//!
//! The caller reads keys, renders the line after each one (`line` and
//! `cursor_back`), and hands the editor the history as it stands.

use vstd::prelude::*;
use crate::complete::completed_line;
use crate::text::{chars_of, string_of, strings_view};

verus! {

/// A key event.
#[derive(PartialEq, Eq, Structural, Debug, Clone, Copy)]
pub enum Key {
    /// A printable character.
    Char(char),
    Backspace,
    Left,
    Right,
    Up,
    Down,
    Enter,
    /// Ctrl-C: give up the line.
    Interrupt,
    /// Ctrl-D: end the session.
    EndOfInput,
    /// Any other key, which does nothing.
    Other,
}

/// What a key comes to.
#[derive(Debug)]
pub enum Edit {
    /// The line is still being edited.
    Editing,
    /// The line was submitted.
    Submitted(String),
    /// The line was given up: run nothing.
    Aborted,
    /// The session ends.
    Closed,
}

pub enum EditSpec {
    Editing,
    Submitted(Seq<char>),
    Aborted,
    Closed,
}

pub open spec fn edit_view(e: Edit) -> EditSpec {
    match e {
        Edit::Editing => EditSpec::Editing,
        Edit::Submitted(s) => EditSpec::Submitted(s@),
        Edit::Aborted => EditSpec::Aborted,
        Edit::Closed => EditSpec::Closed,
    }
}

/// The editor's state: the line and its cursor, the last text typed by hand,
/// the history entry shown (`hist_pos == hist_len` when none is) and the
/// history length last seen.
pub struct EditorView {
    pub buffer: Seq<char>,
    pub cursor: nat,
    pub shadow: Seq<char>,
    pub hist_pos: nat,
    pub hist_len: nat,
}

pub open spec fn editor_wf(v: EditorView) -> bool {
    v.cursor <= v.buffer.len() && v.hist_pos <= v.hist_len
}

/// The state at the start of a line.
pub open spec fn editor_start() -> EditorView {
    EditorView { buffer: Seq::empty(), cursor: 0, shadow: Seq::empty(), hist_pos: 0, hist_len: 0 }
}

/// The state brought up to a history of length `n`: when no entry was shown,
/// or the one shown is gone, none is shown.
pub open spec fn synced(v: EditorView, n: nat) -> EditorView {
    let pos = if v.hist_pos == v.hist_len || v.hist_pos > n { n } else { v.hist_pos };
    EditorView { hist_pos: pos, hist_len: n, ..v }
}

/// `s` shown, with the cursor at its end.
pub open spec fn showing(v: EditorView, s: Seq<char>, pos: nat) -> EditorView {
    EditorView { buffer: s, cursor: s.len(), hist_pos: pos, ..v }
}

/// One key, with `hist` the history: the state after it, and what it comes to.
pub open spec fn key_step(v0: EditorView, key: Key, hist: Seq<Seq<char>>) -> (EditorView, EditSpec) {
    let v = synced(v0, hist.len());
    match key {
        Key::Char(c) => {
            let b = v.buffer.insert(v.cursor as int, c);
            (EditorView { buffer: b, cursor: v.cursor + 1, shadow: b, hist_pos: v.hist_len, ..v }, EditSpec::Editing)
        },
        Key::Backspace => {
            if v.cursor > 0 {
                let b = v.buffer.remove(v.cursor - 1);
                (EditorView { buffer: b, cursor: (v.cursor - 1) as nat, shadow: b, hist_pos: v.hist_len, ..v }, EditSpec::Editing)
            } else {
                (EditorView { shadow: v.buffer, hist_pos: v.hist_len, ..v }, EditSpec::Editing)
            }
        },
        Key::Left => (EditorView { cursor: if v.cursor > 0 { (v.cursor - 1) as nat } else { 0 }, ..v }, EditSpec::Editing),
        Key::Right => (EditorView { cursor: if v.cursor < v.buffer.len() { v.cursor + 1 } else { v.cursor }, ..v }, EditSpec::Editing),
        Key::Up => {
            if v.hist_pos > 0 {
                let p = (v.hist_pos - 1) as nat;
                (showing(v, hist[p as int], p), EditSpec::Editing)
            } else {
                (v, EditSpec::Editing)
            }
        },
        Key::Down => {
            if v.hist_pos + 1 < v.hist_len {
                let p = v.hist_pos + 1;
                (showing(v, hist[p as int], p), EditSpec::Editing)
            } else {
                (showing(v, v.shadow, v.hist_len), EditSpec::Editing)
            }
        },
        Key::Enter => (v, EditSpec::Submitted(v.buffer)),
        Key::Interrupt => (v, EditSpec::Aborted),
        Key::EndOfInput => (v, EditSpec::Closed),
        Key::Other => (v, EditSpec::Editing),
    }
}

/// The line editor.
pub struct Editor {
    buffer: Vec<char>,
    cursor: usize,
    shadow: Vec<char>,
    hist_pos: usize,
    hist_len: usize,
}

impl View for Editor {
    type V = EditorView;

    closed spec fn view(&self) -> EditorView {
        EditorView {
            buffer: self.buffer@,
            cursor: self.cursor as nat,
            shadow: self.shadow@,
            hist_pos: self.hist_pos as nat,
            hist_len: self.hist_len as nat,
        }
    }
}

impl Editor {
    /// An editor at the start of a line.
    pub fn new() -> (r: Editor)
        ensures
            r@ == editor_start(),
    {
        Editor { buffer: Vec::new(), cursor: 0, shadow: Vec::new(), hist_pos: 0, hist_len: 0 }
    }

    /// The line being edited.
    pub fn line(&self) -> (r: String)
        ensures
            r@ == self@.buffer,
    {
        string_of(&self.buffer)
    }

    /// How many characters the cursor stands before the end of the line.
    pub fn cursor_back(&self) -> (r: usize)
        requires
            editor_wf(self@),
        ensures
            r == self@.buffer.len() - self@.cursor,
    {
        self.buffer.len() - self.cursor
    }

    /// Takes one key, with `history` the history as it stands (see `key_step`).
    pub fn step(&mut self, key: Key, history: &Vec<String>) -> (r: Edit)
        requires
            editor_wf(old(self)@),
        ensures
            (final(self)@, edit_view(r)) == key_step(old(self)@, key, strings_view(history@)),
            editor_wf(final(self)@),
    {
        let ghost hv = strings_view(history@);
        let n = history.len();
        if self.hist_pos == self.hist_len || self.hist_pos > n {
            self.hist_pos = n;
        }
        self.hist_len = n;
        match key {
            Key::Char(c) => {
                self.buffer.insert(self.cursor, c);
                let len = self.buffer.len();
                assert(self.cursor < len);
                self.cursor = self.cursor + 1;
                self.shadow = self.buffer.clone();
                self.hist_pos = self.hist_len;
                Edit::Editing
            },
            Key::Backspace => {
                if self.cursor > 0 {
                    self.buffer.remove(self.cursor - 1);
                    self.cursor = self.cursor - 1;
                }
                self.shadow = self.buffer.clone();
                self.hist_pos = self.hist_len;
                Edit::Editing
            },
            Key::Left => {
                if self.cursor > 0 {
                    self.cursor = self.cursor - 1;
                }
                Edit::Editing
            },
            Key::Right => {
                if self.cursor < self.buffer.len() {
                    self.cursor = self.cursor + 1;
                }
                Edit::Editing
            },
            Key::Up => {
                if self.hist_pos > 0 {
                    self.hist_pos = self.hist_pos - 1;
                    self.buffer = chars_of(history[self.hist_pos].as_str());
                    self.cursor = self.buffer.len();
                }
                Edit::Editing
            },
            Key::Down => {
                if self.hist_len > 0 && self.hist_pos < self.hist_len - 1 {
                    self.hist_pos = self.hist_pos + 1;
                    self.buffer = chars_of(history[self.hist_pos].as_str());
                } else {
                    self.hist_pos = self.hist_len;
                    self.buffer = self.shadow.clone();
                }
                self.cursor = self.buffer.len();
                Edit::Editing
            },
            Key::Enter => Edit::Submitted(string_of(&self.buffer)),
            Key::Interrupt => Edit::Aborted,
            Key::EndOfInput => Edit::Closed,
            Key::Other => Edit::Editing,
        }
    }

    /// Takes the candidates of a completion: with exactly one, the last field
    /// is completed to it (see `completed_line`) and the cursor goes to the
    /// end; with none or several the line stays as it is. Returns whether the
    /// line changed.
    pub fn complete(&mut self, candidates: &Vec<String>) -> (r: bool)
        requires
            editor_wf(old(self)@),
        ensures
            r == (candidates@.len() == 1),
            r ==> final(self)@ == showing(
                old(self)@,
                completed_line(old(self)@.buffer, candidates@[0]@),
                old(self)@.hist_pos,
            ),
            !r ==> final(self)@ == old(self)@,
            editor_wf(final(self)@),
    {
        if candidates.len() != 1 {
            return false;
        }
        self.buffer = crate::complete::complete_line(&self.buffer, candidates[0].as_str());
        self.cursor = self.buffer.len();
        true
    }
}

/// Up arrow at the start of a line, with a history that is not empty, shows
/// the newest entry.
pub proof fn lemma_up_shows_newest(hist: Seq<Seq<char>>)
    requires
        hist.len() > 0,
    ensures
        key_step(editor_start(), Key::Up, hist).0.buffer == hist.last(),
        key_step(editor_start(), Key::Up, hist).0.hist_pos == hist.len() - 1,
{
}

/// The state after `k` presses of the down arrow.
pub open spec fn press_down(v: EditorView, hist: Seq<Seq<char>>, k: nat) -> EditorView
    decreases k,
{
    if k == 0 {
        v
    } else {
        key_step(press_down(v, hist, (k - 1) as nat), Key::Down, hist).0
    }
}

/// Pressing the down arrow while an entry is shown walks forward through the
/// history, and once past the newest entry shows again the text typed by
/// hand, whatever more presses follow.
pub proof fn lemma_down_returns_to_typed(v: EditorView, hist: Seq<Seq<char>>, k: nat)
    requires
        editor_wf(v),
        v.hist_len == hist.len(),
        v.hist_pos < hist.len(),
        k >= 1,
    ensures
        press_down(v, hist, k).shadow == v.shadow,
        press_down(v, hist, k).hist_len == hist.len(),
        v.hist_pos + k < hist.len() ==> press_down(v, hist, k).buffer == hist[v.hist_pos + k as int]
            && press_down(v, hist, k).hist_pos == v.hist_pos + k,
        v.hist_pos + k >= hist.len() ==> press_down(v, hist, k).buffer == v.shadow
            && press_down(v, hist, k).hist_pos == hist.len(),
    decreases k,
{
    let prev = press_down(v, hist, (k - 1) as nat);
    assert(press_down(v, hist, k) == key_step(prev, Key::Down, hist).0);
    if k > 1 {
        lemma_down_returns_to_typed(v, hist, (k - 1) as nat);
    } else {
        assert(prev == v);
    }
}

/// The records of a history file that count: those that are not blank.
pub open spec fn history_of(lines: Seq<Seq<char>>) -> Seq<Seq<char>>
    decreases lines.len(),
{
    if lines.len() == 0 {
        Seq::empty()
    } else if lines.last().len() == 0 {
        history_of(lines.drop_last())
    } else {
        history_of(lines.drop_last()).push(lines.last())
    }
}

/// The history that the lines of a history file hold (see `history_of`).
pub fn history_entries(lines: &Vec<String>) -> (r: Vec<String>)
    ensures
        strings_view(r@) == history_of(strings_view(lines@)),
{
    let ghost lv = strings_view(lines@);
    let mut r: Vec<String> = Vec::new();
    let mut i: usize = 0;
    assert(lv.take(0) =~= Seq::empty());
    while i < lines.len()
        invariant
            i <= lines@.len(),
            lv == strings_view(lines@),
            strings_view(r@) == history_of(lv.take(i as int)),
        decreases lines.len() - i,
    {
        assert(lv.take(i + 1).drop_last() =~= lv.take(i as int));
        let l = &lines[i];
        if l.as_str().unicode_len() > 0 {
            let ghost r0 = r@;
            r.push(l.clone());
            assert(strings_view(r@) =~= strings_view(r0).push(lv[i as int]));
        }
        i += 1;
    }
    assert(lv.take(lines@.len() as int) =~= lv);
    r
}

/// Whether a submitted line goes into the history: it does unless it
/// repeats the last entry.
pub fn should_record(history: &Vec<String>, line: &str) -> (r: bool)
    ensures
        r == (history@.len() == 0 || history@.last()@ != line@),
{
    if history.len() == 0 {
        return true;
    }
    let last = chars_of(history[history.len() - 1].as_str());
    let l = chars_of(line);
    !crate::text::same_chars(&last, &l)
}

} // verus!
