//! Choosing the editor for `dotling edit`, and how it is launched.
//!
//! Priority: `$DOTLING_EDITOR` → `$VISUAL` → `$EDITOR` → `vim` → `nano` →
//! `vi`. GUI editors that detach immediately (VS Code, Sublime Text, Zed,
//! Pulsar, Atom) are given `--wait` so dotling blocks until the file is
//! closed.

use vstd::prelude::*;

use crate::error::Error;
use crate::path::{file_name, file_name_vec};
use crate::text::{
    ascii_lower, ascii_lower_vec, chars_of, find, find_from, find_seq, occurs_at, is_whitespace, is_ws, push_str,
    same_str, slice_to_vec, str_eq, string_of, trim, trim_vec,
};

verus! {

/// The value of the first pair with key `k` in `env`, from index `i`.
pub open spec fn lookup_from(env: Seq<(Seq<char>, Seq<char>)>, k: Seq<char>, i: int) -> Option<Seq<char>>
    decreases env.len() - i,
{
    if i < 0 || i >= env.len() {
        None
    } else if env[i].0 == k {
        Some(env[i].1)
    } else {
        lookup_from(env, k, i + 1)
    }
}

/// A variable's trimmed value when it is set and not blank.
pub open spec fn editor_value(env: Seq<(Seq<char>, Seq<char>)>, k: Seq<char>) -> Option<Seq<char>> {
    match lookup_from(env, k, 0) {
        Some(v) => if trim(v).len() > 0 {
            Some(trim(v))
        } else {
            None
        },
        None => None,
    }
}

/// The editor named by the environment: the first of `DOTLING_EDITOR`,
/// `VISUAL` and `EDITOR` that is set and not blank, trimmed.
pub open spec fn editor_from_env_spec(env: Seq<(Seq<char>, Seq<char>)>) -> Option<Seq<char>> {
    match editor_value(env, "DOTLING_EDITOR"@) {
        Some(v) => Some(v),
        None => match editor_value(env, "VISUAL"@) {
            Some(v) => Some(v),
            None => editor_value(env, "EDITOR"@),
        },
    }
}

pub open spec fn env_view(env: Seq<(&str, &str)>) -> Seq<(Seq<char>, Seq<char>)> {
    env.map_values(|p: (&str, &str)| (p.0@, p.1@))
}

fn editor_value_exec(env: &[(&str, &str)], k: &str) -> (r: Option<String>)
    ensures
        match editor_value(env_view(env@), k@) {
            Some(v) => r matches Some(s) && s@ == v,
            None => r is None,
        },
{
    let ghost ev = env_view(env@);
    let mut i: usize = 0;
    while i < env.len()
        invariant
            i <= env@.len(),
            ev == env_view(env@),
            lookup_from(ev, k@, 0) == lookup_from(ev, k@, i as int),
        decreases env@.len() - i,
    {
        let (key, val) = env[i];
        assert(ev[i as int] == (key@, val@));
        if str_eq(key, k) {
            let t = trim_vec(&chars_of(val));
            if t.len() > 0 {
                return Some(string_of(&t));
            } else {
                return None;
            }
        }
        i += 1;
    }
    None
}

/// The editor the environment names, not yet adjusted for GUI editors.
pub fn find_editor_from_map(env: &[(&str, &str)]) -> (r: Option<String>)
    ensures
        match editor_from_env_spec(env_view(env@)) {
            Some(v) => r matches Some(s) && s@ == v,
            None => r is None,
        },
{
    match editor_value_exec(env, "DOTLING_EDITOR") {
        Some(v) => Some(v),
        None => match editor_value_exec(env, "VISUAL") {
            Some(v) => Some(v),
            None => editor_value_exec(env, "EDITOR"),
        },
    }
}

/// The first whitespace-separated word of a command line, or the whole of
/// it when there is none.
pub open spec fn first_word(s: Seq<char>) -> Seq<char> {
    let t = trim(s);
    if t.len() == 0 {
        s
    } else {
        word_at(t, 0)
    }
}

/// The characters of `t` from `i` up to the next whitespace.
pub open spec fn word_at(t: Seq<char>, i: int) -> Seq<char>
    decreases t.len() - i,
{
    if i < 0 || i >= t.len() || is_ws(t[i]) {
        Seq::empty()
    } else {
        seq![t[i]] + word_at(t, i + 1)
    }
}

/// An editor that needs `--wait` to block.
pub open spec fn needs_wait(name: Seq<char>) -> bool {
    let l = ascii_lower(name);
    l == "code"@ || l == "subl"@ || l == "zed"@ || l == "pulsar"@ || l == "atom"@
}

/// An editor command with `--wait` added when it starts a GUI editor that
/// would otherwise detach, unless it already has it.
pub open spec fn normalize_gui_editor_spec(editor: Seq<char>) -> Seq<char> {
    let bin = first_word(editor);
    let name = match file_name(bin) {
        Some(n) => n,
        None => bin,
    };
    if needs_wait(name) && find(editor, "--wait"@) < 0 {
        editor + " --wait"@
    } else {
        editor
    }
}

fn word_at_vec(t: &[char], i: usize) -> (r: Vec<char>)
    requires
        i <= t@.len(),
    ensures
        r@ == word_at(t@, i as int),
{
    let mut j = i;
    while j < t.len() && !is_whitespace(t[j])
        invariant
            i <= j <= t@.len(),
            forall|k: int| i <= k < j ==> !is_ws(t@[k]),
        decreases t@.len() - j,
    {
        j += 1;
    }
    proof {
        lemma_word_at(t@, i as int, j as int);
    }
    slice_to_vec(t, i, j)
}

proof fn lemma_word_at(t: Seq<char>, i: int, j: int)
    requires
        0 <= i <= j <= t.len(),
        forall|k: int| i <= k < j ==> !is_ws(t[k]),
        j == t.len() || is_ws(t[j]),
    ensures
        word_at(t, i) == t.subrange(i, j),
    decreases j - i,
{
    if i < j {
        lemma_word_at(t, i + 1, j);
        assert(seq![t[i]] + t.subrange(i + 1, j) =~= t.subrange(i, j));
    } else {
        assert(t.subrange(i, j) =~= Seq::<char>::empty());
    }
}

/// Give GUI editors that detach immediately their "wait" flag.
pub fn normalize_gui_editor(editor: &str) -> (r: String)
    ensures
        r@ == normalize_gui_editor_spec(editor@),
{
    let e = chars_of(editor);
    let t = trim_vec(&e);
    let bin = if t.len() == 0 {
        slice_to_vec(&e, 0, e.len())
    } else {
        word_at_vec(&t, 0)
    };
    assert(e@.subrange(0, e@.len() as int) == e@);
    let name = match file_name_vec(&bin) {
        Some(n) => n,
        None => bin,
    };
    let l = ascii_lower_vec(&name);
    let gui = same_str(&l, "code") || same_str(&l, "subl") || same_str(&l, "zed") || same_str(
        &l,
        "pulsar",
    ) || same_str(&l, "atom");
    let wait = chars_of("--wait");
    let has_wait = find_seq(&e, &wait, 0).is_some();
    if gui && !has_wait {
        let mut v: Vec<char> = Vec::new();
        push_str(&mut v, editor);
        push_str(&mut v, " --wait");
        string_of(&v)
    } else {
        editor.to_string()
    }
}

pub open spec fn no_editor_message() -> Seq<char> {
    "no editor found — set $EDITOR, $VISUAL, or $DOTLING_EDITOR"@
}

/// The editor to use: the environment's choice adjusted for GUI editors, or
/// the first of `vim`, `nano`, `vi` that is installed (`installed` tells
/// which, in that order).
pub open spec fn find_editor_spec(env: Seq<(Seq<char>, Seq<char>)>, installed: Seq<bool>) -> Option<Seq<char>> {
    match editor_from_env_spec(env) {
        Some(v) => Some(normalize_gui_editor_spec(v)),
        None => if installed.len() > 0 && installed[0] {
            Some("vim"@)
        } else if installed.len() > 1 && installed[1] {
            Some("nano"@)
        } else if installed.len() > 2 && installed[2] {
            Some("vi"@)
        } else {
            None
        },
    }
}

/// Find a usable editor from the environment or well-known fallbacks.
pub fn find_editor(env: &[(&str, &str)], installed: &[bool]) -> (r: Result<String, Error>)
    ensures
        match find_editor_spec(env_view(env@), installed@) {
            Some(v) => r matches Ok(s) && s@ == v,
            None => r matches Err(Error::User(m)) && m@ == no_editor_message(),
        },
{
    match find_editor_from_map(env) {
        Some(v) => Ok(normalize_gui_editor(v.as_str())),
        None => {
            if installed.len() > 0 && installed[0] {
                Ok("vim".to_string())
            } else if installed.len() > 1 && installed[1] {
                Ok("nano".to_string())
            } else if installed.len() > 2 && installed[2] {
                Ok("vi".to_string())
            } else {
                Err(
                    Error::User(
                        "no editor found — set $EDITOR, $VISUAL, or $DOTLING_EDITOR".to_string(),
                    ),
                )
            }
        },
    }
}

/// Normalizing an editor command twice changes nothing more.
pub proof fn law_normalize_idempotent(editor: Seq<char>)
    ensures
        normalize_gui_editor_spec(normalize_gui_editor_spec(editor)) == normalize_gui_editor_spec(
            editor,
        ),
{
    let w = "--wait"@;
    let e2 = editor + " --wait"@;
    if normalize_gui_editor_spec(editor) == e2 {
        reveal_strlit("--wait");
        reveal_strlit(" --wait");
        let k: int = editor.len() as int + 1;
        assert(e2.subrange(k, k + w.len()) =~= w);
        lemma_find_some(e2, w, 0, k);
    }
}

/// An occurrence at or after `i` is found.
proof fn lemma_find_some(s: Seq<char>, p: Seq<char>, i: int, k: int)
    requires
        0 <= i <= k,
        occurs_at(s, p, k),
    ensures
        find_from(s, p, i) >= 0,
    decreases k - i,
{
    if !occurs_at(s, p, i) {
        lemma_find_some(s, p, i + 1, k);
    }
}

/// Whether an edited file changed: the BLAKE2b-512 digests of its content
/// before and after the editor ran differ.
pub fn content_changed(before: &[u8], after: &[u8]) -> (r: bool)
    ensures
        r == (crate::sync::blake2b512(before@) != crate::sync::blake2b512(after@)),
{
    let a = crate::sync::blake2b_digest(before);
    let b = crate::sync::blake2b_digest(after);
    !crate::sync::bytes_eq(&a, &b)
}

} // verus!
