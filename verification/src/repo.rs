//! Repository paths of the link-based workflow: the discovery file's
//! content, `~` expansion, normalization, and the mapping between a home
//! destination and its repo-relative source.

use vstd::prelude::*;

use crate::error::DotlingError;
use crate::path::{collect, collect_vec, is_abs, join, parts_of, parts_vec, push_path_vec};
use crate::text::{
    chars_of, copy_vec, lemma_seqs_of_push, push_all, push_str, same, same_str, seqs_of,
    slice_to_vec, starts_with, string_of,
};

verus! {

/// The repo root recorded in the discovery file: its text without trailing
/// newlines.
pub open spec fn trim_newlines_end(s: Seq<char>) -> Seq<char>
    decreases s.len(),
{
    if s.len() > 0 && s.last() == '\n' {
        trim_newlines_end(s.drop_last())
    } else {
        s
    }
}

/// The repo root named by the discovery file's content.
pub fn repo_root_from(content: &str) -> (r: String)
    ensures
        r@ == trim_newlines_end(content@),
{
    let c = chars_of(content);
    let mut j = c.len();
    assert(c@.take(j as int) == c@);
    while j > 0 && c[j - 1] == '\n'
        invariant
            j <= c@.len(),
            trim_newlines_end(c@) == trim_newlines_end(c@.take(j as int)),
        decreases j,
    {
        assert(c@.take(j as int).drop_last() == c@.take(j - 1));
        j -= 1;
    }
    string_of(&slice_to_vec(&c, 0, j))
}

/// `~` or a path under `~/` with the home directory put in; any other path
/// is kept. Without a home directory there is no repo to find.
pub open spec fn expand_path_spec(p: Seq<char>, home: Option<Seq<char>>) -> Option<Seq<char>> {
    if starts_with(p, "~/"@) || p == "~"@ {
        match home {
            Some(h) => Some(join(h, if starts_with(p, "~/"@) {
                p.skip(2)
            } else {
                Seq::empty()
            })),
            None => None,
        }
    } else {
        Some(p)
    }
}

/// Expands `~` at the start of a path to the user's home directory.
pub fn expand_path(path: &str, home: Option<&str>) -> (r: Result<String, DotlingError>)
    ensures
        match expand_path_spec(path@, opt_str_view(home)) {
            Some(s) => r matches Ok(t) && t@ == s,
            None => r matches Err(DotlingError::RepoNotFound),
        },
{
    proof {
        reveal_strlit("~/");
        reveal_strlit("~");
    }
    let p = chars_of(path);
    let tilde_slash = p.len() >= 2 && p[0] == '~' && p[1] == '/';
    let tilde = p.len() == 1 && p[0] == '~';
    proof {
        if tilde_slash {
            assert(p@.take(2) =~= "~/"@);
        } else if p@.len() >= 2 {
            assert(p@.take(2)[0] == p@[0] && p@.take(2)[1] == p@[1]);
        }
        if tilde {
            assert(p@ =~= "~"@);
        }
        if p@ == "~"@ {
            assert(p@.len() == 1);
        }
    }
    if tilde_slash || tilde {
        match home {
            Some(h) => {
                let rest: Vec<char> = if tilde_slash {
                    slice_to_vec(&p, 2, p.len())
                } else {
                    Vec::new()
                };
                assert(tilde_slash ==> rest@ == p@.skip(2));
                assert(!tilde_slash ==> rest@ == Seq::<char>::empty());
                let mut acc = chars_of(h);
                push_path_vec(&mut acc, &rest);
                Ok(string_of(&acc))
            },
            None => Err(DotlingError::RepoNotFound),
        }
    } else {
        Ok(path.to_string())
    }
}

pub open spec fn opt_str_view(o: Option<&str>) -> Option<Seq<char>> {
    match o {
        Some(s) => Some(s@),
        None => None,
    }
}

/// Parts with `..` taking away only a named part before it; a `..` that
/// cannot go up is dropped.
pub open spec fn resolve_dots_named(parts: Seq<Seq<char>>) -> Seq<Seq<char>>
    decreases parts.len(),
{
    if parts.len() == 0 {
        Seq::empty()
    } else {
        let r = resolve_dots_named(parts.drop_last());
        if parts.last() == seq!['.', '.'] {
            if r.len() > 0 && r.last() != seq!['/'] {
                r.drop_last()
            } else {
                r
            }
        } else {
            r.push(parts.last())
        }
    }
}

/// A path with `.` dropped and `..` resolved against named parts only, so
/// that the root is never left.
pub open spec fn normalize_path_spec(p: Seq<char>) -> Seq<char> {
    collect(resolve_dots_named(parts_of(p)))
}

/// Normalizes `.` and `..` components out of a path without touching the
/// filesystem; `..` never goes above the root.
pub fn normalize_path(path: &str) -> (r: String)
    ensures
        r@ == normalize_path_spec(path@),
{
    let parts = parts_vec(&chars_of(path));
    let mut kept: Vec<Vec<char>> = Vec::new();
    let mut i: usize = 0;
    while i < parts.len()
        invariant
            i <= parts@.len(),
            seqs_of(kept@) == resolve_dots_named(seqs_of(parts@).take(i as int)),
        decreases parts@.len() - i,
    {
        let ghost k0 = kept@;
        proof {
            let t = seqs_of(parts@).take(i + 1);
            assert(t.drop_last() == seqs_of(parts@).take(i as int));
            assert(t.last() == parts@[i as int]@);
        }
        let p = &parts[i];
        let dd = p.len() == 2 && p[0] == '.' && p[1] == '.';
        proof {
            if dd {
                assert(p@ =~= seq!['.', '.']);
            } else if p@ == seq!['.', '.'] {
                assert(p@.len() == 2);
            }
        }
        if dd {
            let n = kept.len();
            if n > 0 {
                let last_is_root = kept[n - 1].len() == 1 && kept[n - 1][0] == '/';
                proof {
                    let l = seqs_of(k0).last();
                    assert(l == kept@[n - 1]@);
                    if last_is_root {
                        assert(l =~= seq!['/']);
                    } else if l == seq!['/'] {
                        assert(l.len() == 1);
                    }
                }
                if !last_is_root {
                    kept.pop();
                    assert(seqs_of(kept@) =~= seqs_of(k0).drop_last());
                }
            }
        } else {
            let c = copy_vec(p);
            kept.push(c);
            proof {
                lemma_seqs_of_push(k0, c);
            }
        }
        i += 1;
    }
    assert(seqs_of(parts@).take(parts@.len() as int) == seqs_of(parts@));
    string_of(&collect_vec(&kept))
}

/// Resolves a user-supplied path to an absolute, normalized form: `~`
/// expanded, a relative path taken from `cwd`, `.` and `..` resolved.
pub open spec fn resolve_path_spec(p: Seq<char>, home: Option<Seq<char>>, cwd: Seq<char>) -> Option<Seq<char>> {
    match expand_path_spec(p, home) {
        Some(e) => Some(normalize_path_spec(if is_abs(e) {
            e
        } else {
            join(cwd, e)
        })),
        None => None,
    }
}

pub fn resolve_path(path: &str, home: Option<&str>, cwd: &str) -> (r: Result<String, DotlingError>)
    ensures
        match resolve_path_spec(path@, opt_str_view(home), cwd@) {
            Some(s) => r matches Ok(t) && t@ == s,
            None => r matches Err(DotlingError::RepoNotFound),
        },
{
    let e = expand_path(path, home)?;
    let ec = chars_of(e.as_str());
    if ec.len() > 0 && ec[0] == '/' {
        Ok(normalize_path(e.as_str()))
    } else {
        let mut c = chars_of(cwd);
        push_path_vec(&mut c, &ec);
        let j = string_of(&c);
        Ok(normalize_path(j.as_str()))
    }
}

/// The parts of `p` after those of `base`, when `base`'s parts begin `p`'s.
pub open spec fn rest_parts(p: Seq<char>, base: Seq<char>) -> Option<Seq<Seq<char>>> {
    let pp = parts_of(p);
    let bp = parts_of(base);
    if bp.len() <= pp.len() && pp.take(bp.len() as int) == bp {
        Some(pp.skip(bp.len() as int))
    } else {
        None
    }
}

fn rest_parts_vec(p: &[char], base: &[char]) -> (r: Option<Vec<Vec<char>>>)
    ensures
        match r {
            Some(v) => rest_parts(p@, base@) == Some(seqs_of(v@)),
            None => rest_parts(p@, base@) is None,
        },
{
    let pp = parts_vec(p);
    let bp = parts_vec(base);
    let ghost ps = seqs_of(pp@);
    let ghost bs = seqs_of(bp@);
    if bp.len() > pp.len() {
        return None;
    }
    let mut i: usize = 0;
    while i < bp.len()
        invariant
            i <= bp@.len() <= pp@.len(),
            ps == seqs_of(pp@),
            bs == seqs_of(bp@),
            ps == parts_of(p@),
            bs == parts_of(base@),
            forall|k: int| 0 <= k < i ==> ps[k] == bs[k],
        decreases bp@.len() - i,
    {
        if !same(&pp[i], &bp[i]) {
            proof {
                assert(ps.take(bs.len() as int)[i as int] != bs[i as int]);
                assert(!(ps.take(bs.len() as int) =~= bs));
            }
            return None;
        }
        i += 1;
    }
    assert(ps.take(bs.len() as int) =~= bs);
    let mut rest: Vec<Vec<char>> = Vec::new();
    let mut j = bp.len();
    let ghost start = bp@.len() as int;
    while j < pp.len()
        invariant
            0 <= start <= j <= pp@.len(),
            ps == seqs_of(pp@),
            ps.len() == pp@.len(),
            seqs_of(rest@) == ps.subrange(start, j as int),
        decreases pp@.len() - j,
    {
        let c = copy_vec(&pp[j]);
        let ghost r0 = rest@;
        rest.push(c);
        proof {
            lemma_seqs_of_push(r0, c);
            assert(ps.subrange(start, j + 1) =~= ps.subrange(start, j as int).push(ps[j as int]));
        }
        j += 1;
    }
    assert(ps.subrange(start, ps.len() as int) == ps.skip(start));
    Some(rest)
}

/// Whether a path is inside the home directory (`Path::starts_with`).
pub fn is_inside_home(path: &str, home: Option<&str>) -> (r: bool)
    ensures
        r == (match home {
            Some(h) => rest_parts(path@, h@) is Some,
            None => false,
        }),
{
    match home {
        Some(h) => rest_parts_vec(&chars_of(path), &chars_of(h)).is_some(),
        None => false,
    }
}

/// The group directory of a bare dotfile name.
pub open spec fn bare_group(name: Seq<char>) -> Seq<char> {
    if name == "zshrc"@ || name == "bashrc"@ || name == "bash_profile"@ || name == "bash_aliases"@
        || name == "profile"@ || name == "fishrc"@ {
        "shell"@
    } else if name == "gitconfig"@ || name == "gitignore_global"@ || name == "gitignore"@ {
        "git"@
    } else if name == "vimrc"@ || name == "ideavimrc"@ {
        "vim"@
    } else if name == "tmux.conf"@ {
        "tmux"@
    } else {
        "home"@
    }
}

/// Returns the group directory for a bare dotfile name.
pub fn group_for_bare_file(name: &str) -> (r: &'static str)
    ensures
        r@ == bare_group(name@),
{
    let n = chars_of(name);
    if same_str(&n, "zshrc") || same_str(&n, "bashrc") || same_str(&n, "bash_profile") || same_str(
        &n,
        "bash_aliases",
    ) || same_str(&n, "profile") || same_str(&n, "fishrc") {
        "shell"
    } else if same_str(&n, "gitconfig") || same_str(&n, "gitignore_global") || same_str(
        &n,
        "gitignore",
    ) {
        "git"
    } else if same_str(&n, "vimrc") || same_str(&n, "ideavimrc") {
        "vim"
    } else if same_str(&n, "tmux.conf") {
        "tmux"
    } else {
        "home"
    }
}

/// One leading `.` removed (`str::strip_prefix('.')`).
pub open spec fn strip_dot(s: Seq<char>) -> Seq<char> {
    if s.len() > 0 && s[0] == '.' {
        s.drop_first()
    } else {
        s
    }
}

/// Parts joined with `/`.
pub open spec fn join_slash(parts: Seq<Seq<char>>) -> Seq<char>
    decreases parts.len(),
{
    if parts.len() == 0 {
        Seq::empty()
    } else if parts.len() == 1 {
        parts[0]
    } else {
        join_slash(parts.drop_last()) + "/"@ + parts.last()
    }
}

/// Why a destination has no repo source.
pub enum DestFailure {
    /// No home directory is known.
    NoHome,
    /// The destination is not under the home directory.
    OutsideHome,
    /// The destination is the home directory itself.
    Empty,
}

/// The repo source of a home destination: the home prefix dropped, a bare
/// dotfile put under its group, otherwise the first component's dot dropped.
pub open spec fn dest_to_src_spec(dest: Seq<char>, home: Option<Seq<char>>) -> Result<Seq<char>, DestFailure> {
    match home {
        None => Err(DestFailure::NoHome),
        Some(h) => match rest_parts(dest, h) {
            None => Err(DestFailure::OutsideHome),
            Some(cs) => if cs.len() == 0 {
                Err(DestFailure::Empty)
            } else if cs.len() == 1 {
                Ok(bare_group(strip_dot(cs[0])) + "/"@ + strip_dot(cs[0]))
            } else {
                Ok(join_slash(cs.update(0, strip_dot(cs[0]))))
            },
        },
    }
}

fn strip_dot_vec(s: &[char]) -> (r: Vec<char>)
    ensures
        r@ == strip_dot(s@),
{
    if s.len() > 0 && s[0] == '.' {
        let r = slice_to_vec(s, 1, s.len());
        assert(r@ =~= s@.drop_first());
        r
    } else {
        slice_to_vec(s, 0, s.len())
    }
}

/// Converts an absolute destination path into a repo-relative source path.
pub fn dest_to_src_path(dest: &str, home: Option<&str>) -> (r: Result<String, DotlingError>)
    ensures
        match dest_to_src_spec(dest@, opt_str_view(home)) {
            Ok(s) => r matches Ok(t) && t@ == s,
            Err(DestFailure::NoHome) => r matches Err(DotlingError::RepoNotFound),
            Err(DestFailure::OutsideHome) => r matches Err(DotlingError::PathOutsideHome(p)) && p@
                == dest@,
            Err(DestFailure::Empty) => r matches Err(DotlingError::PathNotFound(p)) && p@ == dest@,
        },
{
    let h = match home {
        Some(h) => h,
        None => return Err(DotlingError::RepoNotFound),
    };
    let cs = match rest_parts_vec(&chars_of(dest), &chars_of(h)) {
        Some(cs) => cs,
        None => return Err(DotlingError::PathOutsideHome(dest.to_string())),
    };
    let ghost css = seqs_of(cs@);
    if cs.len() == 0 {
        return Err(DotlingError::PathNotFound(dest.to_string()));
    }
    let first = strip_dot_vec(&cs[0]);
    if cs.len() == 1 {
        let name = string_of(&first);
        let group = group_for_bare_file(name.as_str());
        let mut v: Vec<char> = Vec::new();
        push_str(&mut v, group);
        v.push('/');
        push_all(&mut v, &first);
        proof {
            reveal_strlit("/");
            assert(v@ =~= bare_group(strip_dot(css[0])) + "/"@ + strip_dot(css[0]));
        }
        return Ok(string_of(&v));
    }
    let ghost parts = css.update(0, strip_dot(css[0]));
    let mut v: Vec<char> = Vec::new();
    push_all(&mut v, &first);
    proof {
        assert(parts.take(1) =~= seq![parts[0]]);
        assert(join_slash(parts.take(1)) == parts[0]);
    }
    let mut i: usize = 1;
    while i < cs.len()
        invariant
            1 <= i <= cs@.len(),
            css == seqs_of(cs@),
            parts == css.update(0, strip_dot(css[0])),
            v@ == join_slash(parts.take(i as int)),
        decreases cs@.len() - i,
    {
        v.push('/');
        push_all(&mut v, &cs[i]);
        proof {
            reveal_strlit("/");
            assert(parts.take(i + 1).drop_last() == parts.take(i as int));
            assert(parts.take(i + 1).last() == css[i as int]);
            assert(v@ =~= join_slash(parts.take(i as int)) + "/"@ + css[i as int]);
        }
        i += 1;
    }
    assert(parts.take(parts.len() as int) == parts);
    Ok(string_of(&v))
}

/// Converts a repo entry's stored destination back to an absolute path.
pub fn src_to_dest_path(dest_str: &str, home: Option<&str>) -> (r: Result<String, DotlingError>)
    ensures
        match expand_path_spec(dest_str@, opt_str_view(home)) {
            Some(s) => r matches Ok(t) && t@ == s,
            None => r matches Err(DotlingError::RepoNotFound),
        },
{
    expand_path(dest_str, home)
}

/// A path inside the home directory shown as `~/...`; any other path as is.
pub open spec fn path_with_tilde_spec(p: Seq<char>, home: Option<Seq<char>>) -> Seq<char> {
    match home {
        Some(h) => match rest_parts(p, h) {
            Some(rest) => "~/"@ + collect(rest),
            None => p,
        },
        None => p,
    }
}

pub fn path_with_tilde(path: &str, home: Option<&str>) -> (r: String)
    ensures
        r@ == path_with_tilde_spec(path@, opt_str_view(home)),
{
    match home {
        Some(h) => match rest_parts_vec(&chars_of(path), &chars_of(h)) {
            Some(rest) => {
                let c = collect_vec(&rest);
                let mut v: Vec<char> = Vec::new();
                push_str(&mut v, "~/");
                push_all(&mut v, &c);
                string_of(&v)
            },
            None => path.to_string(),
        },
        None => path.to_string(),
    }
}

} // verus!
