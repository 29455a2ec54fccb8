//! Global state: where the state directory lives, and the small state file
//! that records which dotfiles repository is registered.
//!
//! The state file `~/.dotling/state.toml` holds one line that matters:
//!
//! ```toml
//! # dotling global state — managed by dotling
//! repo = "~/dotfiles"
//! ```

use vstd::prelude::*;

use crate::error::Error;
use crate::path::{
    collapse_tilde, collapse_tilde_spec, expand_tilde, expand_tilde_spec, join, join_paths,
};
use crate::text::{
    before_char, before_char_vec, chars_of, index_of, join_lines, lemma_join_one, lemma_index_of_at,
    lemma_index_of_none, lemma_lines_join, lemma_trim_key_space, lemma_trim_noop,
    lemma_trim_one_space, lines, lines_vec, push_all, push_str, same_str, seqs_of, split_once,
    split_once_vec, string_of, trim, trim_vec,
};
use crate::vars::{trim_char, trim_char_vec};

verus! {

/// The state directory under a home directory.
pub open spec fn state_dir_spec(home: Seq<char>) -> Seq<char> {
    join(home, ".dotling"@)
}

/// The state file under a home directory.
pub open spec fn state_path_spec(home: Seq<char>) -> Seq<char> {
    join(state_dir_spec(home), "state.toml"@)
}

/// The repo recorded by one line of the state file, if it is a `repo` line:
/// comments after `#` dropped, the value trimmed and unquoted.
pub open spec fn repo_line_value(raw: Seq<char>) -> Option<Seq<char>> {
    let line = trim(before_char(raw, '#'));
    match split_once(line, '=') {
        Some((k, v)) => if trim(k) == "repo"@ {
            Some(trim_char(trim(v), '"'))
        } else {
            None
        },
        None => None,
    }
}

/// The value of the first `repo` line from line `i` on.
pub open spec fn first_repo_value(ls: Seq<Seq<char>>, i: int) -> Option<Seq<char>>
    decreases ls.len() - i,
{
    if i < 0 || i >= ls.len() {
        None
    } else {
        match repo_line_value(ls[i]) {
            Some(v) => Some(v),
            None => first_repo_value(ls, i + 1),
        }
    }
}

/// The registered repo root read from the state file's text, `~` expanded.
pub open spec fn read_state_spec(content: Seq<char>, home: Seq<char>) -> Option<Seq<char>> {
    match first_repo_value(lines(content), 0) {
        Some(v) => Some(expand_tilde_spec(v, home)),
        None => None,
    }
}

pub open spec fn state_header() -> Seq<char> {
    "# dotling global state — managed by dotling"@
}

/// The `repo` line written for a repo shown as `display`.
pub open spec fn repo_line(display: Seq<char>) -> Seq<char> {
    "repo = \""@ + display + "\""@
}

/// The state file written for a repo root: the root is shown with the home
/// directory collapsed to `~`.
pub open spec fn state_content_spec(repo_root: Seq<char>, home: Seq<char>) -> Seq<char> {
    join_lines(seq![state_header(), repo_line(collapse_tilde_spec(repo_root, home))])
}

pub open spec fn no_repo_message() -> Seq<char> {
    "no dotfiles repository found — run `dotling init <path>` first"@
}

/// Global state directory: `~/.dotling/`
pub fn state_dir(home: &str) -> (r: String)
    ensures
        r@ == state_dir_spec(home@),
{
    join_paths(home, ".dotling")
}

/// Path to the global state file: `~/.dotling/state.toml`
pub fn state_path(home: &str) -> (r: String)
    ensures
        r@ == state_path_spec(home@),
{
    let d = state_dir(home);
    join_paths(d.as_str(), "state.toml")
}

/// The registered repo root in the text of the state file, if any.
pub fn read_state(content: &str, home: &str) -> (r: Option<String>)
    ensures
        match r {
            Some(s) => read_state_spec(content@, home@) == Some(s@),
            None => read_state_spec(content@, home@) is None,
        },
{
    let ls = lines_vec(&chars_of(content));
    let ghost lv = seqs_of(ls@);
    let mut i: usize = 0;
    while i < ls.len()
        invariant
            i <= ls@.len(),
            lv == seqs_of(ls@),
            lv == lines(content@),
            first_repo_value(lv, 0) == first_repo_value(lv, i as int),
        decreases ls@.len() - i,
    {
        let raw = &ls[i];
        assert(raw@ == lv[i as int]);
        let line = trim_vec(&before_char_vec(raw, '#'));
        match split_once_vec(&line, '=') {
            Some((k, v)) => {
                let kt = trim_vec(&k);
                if same_str(&kt, "repo") {
                    let value = trim_char_vec(&trim_vec(&v), '"');
                    let s = string_of(&value);
                    return Some(expand_tilde(s.as_str(), home));
                }
            },
            None => {},
        }
        i += 1;
    }
    None
}

/// The text of the state file that registers `repo_root`.
pub fn state_content(repo_root: &str, home: &str) -> (r: String)
    ensures
        r@ == state_content_spec(repo_root@, home@),
{
    let display = collapse_tilde(repo_root, home);
    let mut v: Vec<char> = Vec::new();
    push_str(&mut v, "# dotling global state — managed by dotling");
    v.push('\n');
    push_str(&mut v, "repo = \"");
    push_str(&mut v, display.as_str());
    push_str(&mut v, "\"");
    v.push('\n');
    proof {
        let ls = seq![state_header(), repo_line(display@)];
        assert(ls.drop_last() == seq![state_header()]);
        assert(seq![state_header()].drop_last() == Seq::<Seq<char>>::empty());
        assert(join_lines(Seq::<Seq<char>>::empty()) == Seq::<char>::empty());
        lemma_join_one(state_header());
        assert(join_lines(ls) == join_lines(seq![state_header()]) + repo_line(display@) + seq!['\n']);
        assert(v@ =~= join_lines(ls));
    }
    string_of(&v)
}

/// Require a registered repo root; `state` is what the state file records.
pub fn require_repo_root(state: Option<String>) -> (r: Result<String, Error>)
    ensures
        match state {
            Some(s) => r == Ok::<String, Error>(s),
            None => r matches Err(Error::User(m)) && m@ == no_repo_message(),
        },
{
    match state {
        Some(s) => Ok(s),
        None => Err(
            Error::User(
                "no dotfiles repository found — run `dotling init <path>` first".to_string(),
            ),
        ),
    }
}

/// Path to `dotling.toml` within a repo.
pub fn config_path(repo_root: &str) -> (r: String)
    ensures
        r@ == join(repo_root@, "dotling.toml"@),
{
    join_paths(repo_root, "dotling.toml")
}


/// The directory of backup sessions: `~/.dotling/backups`.
pub fn backup_root(home: &str) -> (r: String)
    ensures
        r@ == join(state_dir_spec(home@), "backups"@),
{
    let d = state_dir(home);
    join_paths(d.as_str(), "backups")
}

/// The snapshot of an entry's last synced content, the base of merges:
/// `~/.dotling/snapshots/<source>`.
pub fn snapshot_path(home: &str, source: &str) -> (r: String)
    ensures
        r@ == join(join(state_dir_spec(home@), "snapshots"@), source@),
{
    let d = state_dir(home);
    let s = join_paths(d.as_str(), "snapshots");
    join_paths(s.as_str(), source)
}

/// The fingerprint store: `~/.dotling/fingerprints.toml`.
pub fn fingerprint_path(home: &str) -> (r: String)
    ensures
        r@ == join(state_dir_spec(home@), "fingerprints.toml"@),
{
    let d = state_dir(home);
    join_paths(d.as_str(), "fingerprints.toml")
}

/// The repo recorded by a `repo` line with a plain shown path.
proof fn lemma_repo_line(d: Seq<char>)
    requires
        forall|k: int| 0 <= k < d.len() ==> d[k] != '#' && d[k] != '\n' && d[k] != '\r',
        d.len() > 0 ==> d[0] != '"' && d.last() != '"',
    ensures
        repo_line_value(repo_line(d)) == Some(d),
{
    reveal_strlit("repo = \"");
    reveal_strlit("\"");
    reveal_strlit("repo");
    let l = repo_line(d);
    assert(forall|k: int| 0 <= k < l.len() ==> l[k] != '#') by {
        assert forall|k: int| 0 <= k < l.len() implies l[k] != '#' by {
            if 8 <= k < 8 + d.len() {
                assert(l[k] == d[k - 8]);
            }
        }
    }
    lemma_index_of_none(l, '#');
    assert(before_char(l, '#') == l);
    lemma_trim_noop(l);
    assert(l[5] == '=');
    assert forall|k: int| 0 <= k < 5 implies l[k] != '=' by {}
    lemma_index_of_at(l, '=', 5);
    let k = l.take(5);
    let v = l.skip(6);
    assert(k =~= "repo"@ + seq![' ']);
    lemma_trim_noop("repo"@);
    lemma_trim_key_space("repo"@);
    let q = seq!['"'] + d + seq!['"'];
    assert(v =~= seq![' '] + q);
    lemma_trim_one_space(v);
    assert(v.drop_first() =~= q);
    assert(trim_char(q, '"') == trim_char(d + seq!['"'], '"')) by {
        assert(q.drop_first() =~= d + seq!['"']);
    }
    if d.len() > 0 {
        assert((d + seq!['"']).drop_last() =~= d);
        assert((d + seq!['"'])[0] == d[0]);
        assert(trim_char(d + seq!['"'], '"') == trim_char(d, '"'));
    } else {
        assert(d + seq!['"'] =~= seq!['"']);
        assert(seq!['"'].drop_first() =~= d);
        assert(trim_char(seq!['"'], '"') == trim_char(d, '"'));
    }
}

/// Writing the state for a repo root and reading it back gives the path the
/// file shows (the root with home collapsed to `~`) expanded again, when that
/// shown path is plain: no `#`, no line break, no quote at either end.
pub proof fn law_state_roundtrip(repo_root: Seq<char>, home: Seq<char>)
    requires
        ({
            let d = collapse_tilde_spec(repo_root, home);
            &&& forall|k: int| 0 <= k < d.len() ==> d[k] != '#' && d[k] != '\n' && d[k] != '\r'
            &&& d.len() > 0 ==> d[0] != '"' && d.last() != '"'
        }),
    ensures
        read_state_spec(state_content_spec(repo_root, home), home) == Some(
            expand_tilde_spec(collapse_tilde_spec(repo_root, home), home),
        ),
{
    let d = collapse_tilde_spec(repo_root, home);
    reveal_strlit("# dotling global state — managed by dotling");
    reveal_strlit("repo = \"");
    reveal_strlit("\"");
    let h = state_header();
    let l = repo_line(d);
    let ls = seq![h, l];
    assert forall|i: int, k: int| 0 <= i < ls.len() && 0 <= k < ls[i].len() implies ls[i][k]
        != '\n' by {
        if i == 1 && 8 <= k < 8 + d.len() {
            assert(l[k] == d[k - 8]);
        }
    }
    assert(l.last() == '"');
    lemma_lines_join(ls);
    assert(h[0] == '#');
    lemma_index_of_at(h, '#', 0);
    assert(before_char(h, '#') =~= Seq::<char>::empty());
    lemma_trim_noop(Seq::<char>::empty());
    lemma_index_of_none(Seq::<char>::empty(), '=');
    assert(repo_line_value(h) is None);
    lemma_repo_line(d);
    assert(first_repo_value(ls, 1) == Some(d));
}

} // verus!
