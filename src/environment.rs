//! What the shell takes from its surroundings: the home directory, host and
//! user names, and the prompt and paths built from them.

use vstd::prelude::*;
use crate::shell::Shell;
use crate::text::{chars_of, starts_with, string_of, has_prefix};
use crate::evaluate::value_or_empty;

verus! {

/// Relies on `dirs::home_dir`: the user's home directory, where one is known
/// and is valid Unicode.
#[verifier::external_body]
fn home_dir() -> (r: Option<String>) {
    match dirs::home_dir() {
        Some(p) => p.into_os_string().into_string().ok(),
        None => None,
    }
}

/// Relies on `whoami::hostname`: the machine's host name, where it can be read.
#[verifier::external_body]
fn host_name() -> (r: Option<String>) {
    whoami::hostname().ok()
}

/// Relies on `whoami::username`: the user's name, where it can be read.
#[verifier::external_body]
fn user_name() -> (r: Option<String>) {
    whoami::username().ok()
}

/// Whether a path starts with the component `~`: it is `~` or starts `~/`.
pub open spec fn is_tilde_path(p: Seq<char>) -> bool {
    p == seq!['~'] || (p.len() >= 2 && p[0] == '~' && p[1] == '/')
}

/// `rest` joined under the directory `dir`, with one separator between.
pub open spec fn join_path(dir: Seq<char>, rest: Seq<char>) -> Seq<char> {
    if dir.len() > 0 && dir.last() == '/' {
        dir + rest
    } else {
        dir + seq!['/'] + rest
    }
}

/// Tilde expansion of `p` with home directory `home`: `~` is the home
/// directory and `~/rest` is `rest` under it; other paths are kept. With no
/// home directory a tilde path has no expansion.
pub open spec fn tilde_expansion(p: Seq<char>, home: Option<Seq<char>>) -> Option<Seq<char>> {
    if !is_tilde_path(p) {
        Some(p)
    } else {
        match home {
            None => None,
            Some(h) => if p.len() == 1 {
                Some(h)
            } else {
                Some(join_path(h, p.skip(2)))
            },
        }
    }
}

pub open spec fn opt_view(o: Option<String>) -> Option<Seq<char>> {
    match o {
        Some(s) => Some(s@),
        None => None,
    }
}

/// Tilde expansion of `path` with the given home directory.
pub fn expand_tilde_with(path: &str, home: Option<String>) -> (r: Option<String>)
    ensures
        opt_view(r) == tilde_expansion(path@, opt_view(home)),
{
    let p = chars_of(path);
    let tilde_only = p.len() == 1 && p[0] == '~';
    let tilde_dir = p.len() >= 2 && p[0] == '~' && p[1] == '/';
    if !tilde_only && !tilde_dir {
        proof {
            if p@ == seq!['~'] {
                assert(p@[0] == '~');
            }
        }
        return Some(string_of(&p));
    }
    assert(tilde_only ==> p@ =~= seq!['~']);
    match home {
        None => None,
        Some(h) => {
            if tilde_only {
                return Some(h);
            }
            let mut out = chars_of(h.as_str());
            if out.len() == 0 || out[out.len() - 1] != '/' {
                out.push('/');
            }
            let ghost o0 = out@;
            let mut i: usize = 2;
            while i < p.len()
                invariant
                    2 <= i <= p@.len(),
                    out@ == o0 + p@.subrange(2, i as int),
                decreases p.len() - i,
            {
                out.push(p[i]);
                i += 1;
                assert(out@ =~= o0 + p@.subrange(2, i as int));
            }
            assert(p@.subrange(2, p@.len() as int) =~= p@.skip(2));
            let r = string_of(&out);
            assert(r@ =~= join_path(h@, p@.skip(2)));
            Some(r)
        },
    }
}

/// Tilde expansion of `path` with the user's home directory. Paths that do
/// not start with the component `~` are kept as they are.
pub fn expand_tilde(path: &str) -> (r: Option<String>)
    ensures
        !is_tilde_path(path@) ==> opt_view(r) == Some(path@),
        is_tilde_path(path@) && r is Some ==> exists|h: Seq<char>|
            opt_view(r) == #[trigger] tilde_expansion(path@, Some(h)),
{
    let home = home_dir();
    let r = expand_tilde_with(path, home);
    proof {
        if is_tilde_path(path@) && r is Some {
            let h = opt_view(home)->Some_0;
            assert(opt_view(r) == tilde_expansion(path@, Some(h)));
        }
    }
    r
}

/// A directory as shown in the prompt: a leading home directory becomes `~`.
pub open spec fn shown_dir(cwd: Seq<char>, home: Seq<char>) -> Seq<char> {
    if home.len() > 0 && has_prefix(cwd, home) {
        seq!['~'] + cwd.skip(home.len() as int)
    } else {
        cwd
    }
}

/// The prompt that `template` gives: `\w` stands for `dir`, `\h` for
/// `host`, `\u` for `user`; every other character stands for itself.
pub open spec fn prompt_text(template: Seq<char>, dir: Seq<char>, host: Seq<char>, user: Seq<char>) -> Seq<char>
    decreases template.len(),
{
    if template.len() == 0 {
        Seq::empty()
    } else if template.len() >= 2 && template[0] == '\\' && template[1] == 'w' {
        dir + prompt_text(template.skip(2), dir, host, user)
    } else if template.len() >= 2 && template[0] == '\\' && template[1] == 'h' {
        host + prompt_text(template.skip(2), dir, host, user)
    } else if template.len() >= 2 && template[0] == '\\' && template[1] == 'u' {
        user + prompt_text(template.skip(2), dir, host, user)
    } else {
        seq![template[0]] + prompt_text(template.skip(1), dir, host, user)
    }
}

/// Fills in a prompt template (see `prompt_text`), with the working
/// directory `cwd` shown relative to `home` (see `shown_dir`).
pub fn format_prompt(template: &str, cwd: &str, home: &str, host: &str, user: &str) -> (r: String)
    ensures
        r@ == prompt_text(template@, shown_dir(cwd@, home@), host@, user@),
{
    let t = chars_of(template);
    let c = chars_of(cwd);
    let h = chars_of(home);
    let mut dir: Vec<char> = Vec::new();
    if h.len() > 0 && starts_with(&c, &h) {
        dir.push('~');
        let mut i: usize = h.len();
        while i < c.len()
            invariant
                h@.len() <= i <= c@.len(),
                dir@ == seq!['~'] + c@.subrange(h@.len() as int, i as int),
            decreases c.len() - i,
        {
            dir.push(c[i]);
            i += 1;
            assert(dir@ =~= seq!['~'] + c@.subrange(h@.len() as int, i as int));
        }
        assert(c@.subrange(h@.len() as int, c@.len() as int) =~= c@.skip(h@.len() as int));
    } else {
        dir = c;
    }
    let hs = chars_of(host);
    let us = chars_of(user);
    let ghost d = dir@;
    let mut out: Vec<char> = Vec::new();
    let mut i: usize = 0;
    assert(t@.skip(0) =~= t@);
    assert(out@ + prompt_text(t@, d, hs@, us@) =~= prompt_text(t@, d, hs@, us@));
    while i < t.len()
        invariant
            i <= t@.len(),
            d == dir@,
            out@ + prompt_text(t@.skip(i as int), d, hs@, us@) == prompt_text(t@, d, hs@, us@),
        decreases t.len() - i,
    {
        let ghost o0 = out@;
        let ghost rest = t@.skip(i as int);
        if i + 1 < t.len() && t[i] == '\\' && (t[i + 1] == 'w' || t[i + 1] == 'h' || t[i + 1] == 'u') {
            let sub = if t[i + 1] == 'w' { &dir } else if t[i + 1] == 'h' { &hs } else { &us };
            let mut j: usize = 0;
            while j < sub.len()
                invariant
                    j <= sub@.len(),
                    out@ == o0 + sub@.take(j as int),
                decreases sub.len() - j,
            {
                out.push(sub[j]);
                j += 1;
                assert(out@ =~= o0 + sub@.take(j as int));
            }
            assert(sub@.take(sub@.len() as int) =~= sub@);
            assert(rest.skip(2) =~= t@.skip(i + 2));
            let ghost tail = prompt_text(t@.skip(i + 2), d, hs@, us@);
            assert(o0 + (sub@ + tail) =~= out@ + tail);
            i += 2;
        } else {
            out.push(t[i]);
            assert(rest.skip(1) =~= t@.skip(i + 1));
            let ghost tail = prompt_text(t@.skip(i + 1), d, hs@, us@);
            assert(o0 + (seq![t@[i as int]] + tail) =~= out@ + tail);
            i += 1;
        }
    }
    assert(t@.skip(t@.len() as int) =~= Seq::<char>::empty());
    assert(out@ + Seq::<char>::empty() =~= out@);
    string_of(&out)
}

impl Shell {
    /// The prompt: the template in `PS1` (none where it is unset) filled in
    /// with the working directory `cwd`, and the home directory, host name and
    /// user name of the machine, each empty where it cannot be read.
    pub fn get_ps1(&self, cwd: &str) -> (r: String)
        ensures
            exists|home: Seq<char>, host: Seq<char>, user: Seq<char>|
                r@ == #[trigger] prompt_text(value_or_empty(self.vars@, "PS1"@), shown_dir(cwd@, home), host, user),
    {
        let template = match self.vars.get("PS1") {
            Some(t) => t,
            None => String::new(),
        };
        let home = match home_dir() {
            Some(h) => h,
            None => String::new(),
        };
        let host = match host_name() {
            Some(h) => h,
            None => String::new(),
        };
        let user = match user_name() {
            Some(u) => u,
            None => String::new(),
        };
        let r = format_prompt(template.as_str(), cwd, home.as_str(), host.as_str(), user.as_str());
        assert(r@ == prompt_text(value_or_empty(self.vars@, "PS1"@), shown_dir(cwd@, home@), host@, user@));
        r
    }
}

} // verus!
