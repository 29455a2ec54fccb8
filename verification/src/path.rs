//! Paths as `/`-separated text.
//!
//! A path is read as a sequence of components: the segments between `/`
//! separators, leaving out empty segments and `.`.  An absolute path starts
//! with `/`.  The home directory and the working directory are inputs of the
//! functions that need them.

use vstd::prelude::*;

use crate::error::Error;
use crate::text::{
    chars_of, ends_with, eq_ignore_ascii_case, index_of, lemma_index_of, lemma_index_of_at,
    lemma_seqs_of_push,
    copy_vec, starts_with_exec as starts_with_vec, push_all, push_str, same, same_str, seqs_of, slice_to_vec, starts_with, string_of,
};

verus! {

// ── Specification ─────────────────────────────────────────────────

/// The segments of `p` between `/` separators.
pub open spec fn segments(p: Seq<char>) -> Seq<Seq<char>>
    decreases p.len(),
{
    let i = index_of(p, '/');
    if i < 0 {
        seq![p]
    } else {
        proof {
            lemma_index_of(p, '/');
        }
        seq![p.take(i)] + segments(p.skip(i + 1))
    }
}

/// Segments that name something: not empty and not `.`.
pub open spec fn named(segs: Seq<Seq<char>>) -> Seq<Seq<char>>
    decreases segs.len(),
{
    if segs.len() == 0 {
        Seq::empty()
    } else {
        let rest = named(segs.drop_last());
        let s = segs.last();
        if s.len() == 0 || s == seq!['.'] {
            rest
        } else {
            rest.push(s)
        }
    }
}

/// The components of a path.
pub open spec fn comps(p: Seq<char>) -> Seq<Seq<char>> {
    named(segments(p))
}

pub open spec fn is_abs(p: Seq<char>) -> bool {
    p.len() > 0 && p[0] == '/'
}

/// The last component, unless it is `..` or there is none (`Path::file_name`).
pub open spec fn file_name(p: Seq<char>) -> Option<Seq<char>> {
    let c = comps(p);
    if c.len() > 0 && c.last() != seq!['.', '.'] {
        Some(c.last())
    } else {
        None
    }
}

/// Index of the last `c` in `s`, or -1.
pub open spec fn rindex_of(s: Seq<char>, c: char) -> int
    decreases s.len(),
{
    if s.len() == 0 {
        -1
    } else if s.last() == c {
        s.len() - 1
    } else {
        rindex_of(s.drop_last(), c)
    }
}

/// The text after the last `.` of a file name that does not start with that
/// `.` (`Path::extension`).
pub open spec fn extension(f: Seq<char>) -> Option<Seq<char>> {
    let i = rindex_of(f, '.');
    if f == seq!['.', '.'] || i <= 0 {
        None
    } else {
        Some(f.skip(i + 1))
    }
}

/// The extension of the path's file name.
pub open spec fn path_extension(p: Seq<char>) -> Option<Seq<char>> {
    match file_name(p) {
        Some(f) => extension(f),
        None => None,
    }
}


/// `PathBuf::push`: an absolute path replaces, otherwise a separator is
/// added when needed.
pub open spec fn push_path(acc: Seq<char>, part: Seq<char>) -> Seq<char> {
    if is_abs(part) || acc.len() == 0 {
        part
    } else if acc.last() == '/' {
        acc + part
    } else {
        acc + seq!['/'] + part
    }
}

/// `Path::join`.
pub open spec fn join(a: Seq<char>, b: Seq<char>) -> Seq<char> {
    push_path(a, b)
}

/// The parts of a path: `/` for the root, then its components.
pub open spec fn parts_of(p: Seq<char>) -> Seq<Seq<char>> {
    if is_abs(p) {
        seq![seq!['/']] + comps(p)
    } else {
        comps(p)
    }
}

/// The path made of parts (`collect::<PathBuf>()`).
pub open spec fn collect(parts: Seq<Seq<char>>) -> Seq<char>
    decreases parts.len(),
{
    if parts.len() == 0 {
        Seq::empty()
    } else {
        push_path(collect(parts.drop_last()), parts.last())
    }
}

/// Parts with `..` taking away the part before it; the root stays.
pub open spec fn resolve_dots(parts: Seq<Seq<char>>) -> Seq<Seq<char>>
    decreases parts.len(),
{
    if parts.len() == 0 {
        Seq::empty()
    } else {
        let r = resolve_dots(parts.drop_last());
        if parts.last() == seq!['.', '.'] {
            if r.len() > 0 && r.last() != seq!['/'] {
                r.drop_last()
            } else {
                r
            }
        } else {
            r.push(parts.last())
        }
    }
}

/// A path with `.` and `..` resolved without touching the filesystem.
pub open spec fn normalize_spec(p: Seq<char>) -> Seq<char> {
    collect(resolve_dots(parts_of(p)))
}

/// `~` and a leading `~/` replaced by the home directory.
pub open spec fn expand_tilde_spec(p: Seq<char>, home: Seq<char>) -> Seq<char> {
    if p == seq!['~'] {
        home
    } else if starts_with(p, seq!['~', '/']) {
        join(home, p.skip(2))
    } else {
        p
    }
}

/// An absolute normalized path: `~` expanded, a relative path taken from `cwd`.
pub open spec fn resolve_spec(p: Seq<char>, home: Seq<char>, cwd: Seq<char>) -> Seq<char> {
    let e = expand_tilde_spec(p, home);
    if is_abs(e) {
        normalize_spec(e)
    } else {
        normalize_spec(join(cwd, e))
    }
}

/// `Path::strip_prefix`: the rest of `p` when the parts of `base` begin it.
pub open spec fn strip_prefix(p: Seq<char>, base: Seq<char>) -> Option<Seq<char>> {
    let pp = parts_of(p);
    let bp = parts_of(base);
    if bp.len() <= pp.len() && pp.take(bp.len() as int) == bp {
        Some(collect(pp.skip(bp.len() as int)))
    } else {
        None
    }
}

/// The home directory prefix replaced with `~`.
pub open spec fn collapse_tilde_spec(p: Seq<char>, home: Seq<char>) -> Seq<char> {
    match strip_prefix(p, home) {
        Some(rest) => join(seq!['~'], rest),
        None => p,
    }
}

/// Number of leading parts that two part lists share.
pub open spec fn common_len(a: Seq<Seq<char>>, b: Seq<Seq<char>>, k: nat) -> nat
    decreases a.len() - k,
{
    if k < a.len() && k < b.len() && a[k as int] == b[k as int] {
        common_len(a, b, k + 1)
    } else {
        k
    }
}

/// The relative path from `base` to `target`, for absolute paths.
pub open spec fn relative_to_spec(target: Seq<char>, base: Seq<char>) -> Option<Seq<char>> {
    if !is_abs(target) || !is_abs(base) {
        None
    } else {
        let tp = parts_of(target);
        let bp = parts_of(base);
        let k = common_len(tp, bp, 0);
        Some(
            collect(
                Seq::new((bp.len() - k) as nat, |i: int| seq!['.', '.']) + tp.skip(k as int),
            ),
        )
    }
}

/// The text after the leading dots.
pub open spec fn trim_dots(s: Seq<char>) -> Seq<char>
    decreases s.len(),
{
    if s.len() > 0 && s[0] == '.' {
        trim_dots(s.drop_first())
    } else {
        s
    }
}

/// Whether a home-relative path or its file name is covered by a pattern.
pub open spec fn rule_hit(rel: Seq<char>, name: Seq<char>, pattern: Seq<char>) -> bool {
    rel == trim_dots(pattern) || name == pattern
}

/// The repo group of a home-relative path, from the category rules in order.
pub open spec fn category_of(rel: Seq<char>, name: Seq<char>) -> Option<Seq<char>> {
    if rule_hit(rel, name, ".zshrc"@) || rule_hit(rel, name, ".zshenv"@) || rule_hit(
        rel,
        name,
        ".zprofile"@,
    ) || rule_hit(rel, name, ".bashrc"@) || rule_hit(rel, name, ".bash_profile"@) || rule_hit(
        rel,
        name,
        ".profile"@,
    ) || rule_hit(rel, name, ".fishrc"@) {
        Some("shell"@)
    } else if rule_hit(rel, name, ".gitconfig"@) || rule_hit(rel, name, ".gitignore_global"@) {
        Some("git"@)
    } else if rule_hit(rel, name, ".vimrc"@) || rule_hit(rel, name, ".gvimrc"@) {
        Some("vim"@)
    } else if rule_hit(rel, name, ".tmux.conf"@) {
        Some("tmux"@)
    } else if rule_hit(rel, name, ".ssh"@) {
        Some("ssh"@)
    } else if rule_hit(rel, name, ".gnupg"@) {
        Some("gnupg"@)
    } else {
        None
    }
}

/// The repo path of a home-relative path.
pub open spec fn repo_path_of(rel: Seq<char>) -> Seq<char> {
    let name = match file_name(rel) {
        Some(f) => f,
        None => Seq::empty(),
    };
    if starts_with(rel, ".config/"@) {
        join("config"@, rel.skip(8))
    } else if rel == ".config"@ {
        "config"@
    } else {
        match category_of(rel, name) {
            Some(cat) => join(cat, trim_dots(name)),
            None => join("home"@, trim_dots(rel)),
        }
    }
}

// ── Lemmas ────────────────────────────────────────────────────────

pub proof fn lemma_rindex_of(s: Seq<char>, c: char)
    ensures
        rindex_of(s, c) == -1 || (0 <= rindex_of(s, c) < s.len() && s[rindex_of(s, c)] == c),
        forall|k: int| rindex_of(s, c) < k < s.len() ==> s[k] != c,
        rindex_of(s, c) >= -1,
    decreases s.len(),
{
    if s.len() > 0 && s.last() != c {
        lemma_rindex_of(s.drop_last(), c);
        assert forall|k: int| rindex_of(s, c) < k < s.len() implies s[k] != c by {
            if k < s.len() - 1 {
                assert(s[k] == s.drop_last()[k]);
            }
        }
    }
}

// ── Executable functions ──────────────────────────────────────────

/// The components of a path.
pub fn comps_vec(p: &[char]) -> (r: Vec<Vec<char>>)
    ensures
        seqs_of(r@) == comps(p@),
{
    let mut r: Vec<Vec<char>> = Vec::new();
    let mut start: usize = 0;
    let n = p.len();
    let ghost mut segs_done: Seq<Seq<char>> = Seq::empty();
    assert(p@.skip(0) == p@);
    loop
        invariant_except_break
            segs_done + segments(p@.skip(start as int)) == segments(p@),
        invariant
            start <= n == p@.len(),
            seqs_of(r@) == named(segs_done),
        ensures
            segs_done == segments(p@),
            seqs_of(r@) == named(segs_done),
        decreases n - start,
    {
        let ghost rest = p@.skip(start as int);
        let mut i = start;
        while i < n && p[i] != '/'
            invariant
                start <= i <= n == p@.len(),
                forall|k: int| start <= k < i ==> p@[k] != '/',
            decreases n - i,
        {
            i += 1;
        }
        let seg = slice_to_vec(p, start, i);
        proof {
            assert forall|k: int| 0 <= k < i - start implies rest[k] != '/' by {
                assert(rest[k] == p@[k + start]);
            }
            assert(seg@ == rest.take(i - start));
            lemma_index_of(rest, '/');
        }
        let keep = !(seg.len() == 0 || (seg.len() == 1 && seg[0] == '.'));
        let ghost r0 = r@;
        if keep {
            r.push(seg);
            proof {
                lemma_seqs_of_push(r0, seg);
            }
        }
        proof {
            if seg@.len() == 1 && seg@[0] == '.' {
                assert(seg@ =~= seq!['.']);
            }
            assert(named(segs_done.push(seg@)) == (if seg@.len() == 0 || seg@ == seq!['.'] {
                named(segs_done)
            } else {
                named(segs_done).push(seg@)
            })) by {
                assert(segs_done.push(seg@).drop_last() == segs_done);
            }
        }
        if i == n {
            proof {
                assert(index_of(rest, '/') == -1);
                assert(rest.take(i - start) == rest);
                assert(segments(rest) == seq![rest]);
                segs_done = segs_done.push(seg@);
                assert(segs_done == segments(p@));
            }
            break;
        }
        proof {
            assert(rest[i - start] == '/');
            assert(index_of(rest, '/') == i - start);
            assert(rest.skip(i - start + 1) == p@.skip(i + 1));
            assert(segments(rest) == seq![seg@] + segments(p@.skip(i + 1)));
            assert(segs_done + segments(rest) == segs_done.push(seg@) + segments(p@.skip(i + 1)));
            segs_done = segs_done.push(seg@);
        }
        start = i + 1;
    }
    r
}

/// `Path::file_name`.
pub fn file_name_vec(p: &[char]) -> (r: Option<Vec<char>>)
    ensures
        match r {
            Some(f) => file_name(p@) == Some(f@),
            None => file_name(p@) is None,
        },
{
    let cs = comps_vec(p);
    if cs.len() == 0 {
        return None;
    }
    let last = &cs[cs.len() - 1];
    assert(comps(p@).last() == last@);
    if last.len() == 2 && last[0] == '.' && last[1] == '.' {
        assert(last@ == seq!['.', '.']);
        return None;
    }
    assert(last@ != seq!['.', '.']);
    Some(slice_to_vec(last, 0, last.len()))
}

/// `Path::extension`, for the path's file name.
pub fn extension_vec(p: &[char]) -> (r: Option<Vec<char>>)
    ensures
        match r {
            Some(e) => path_extension(p@) == Some(e@),
            None => path_extension(p@) is None,
        },
{
    match file_name_vec(p) {
        None => None,
        Some(f) => {
            proof {
                lemma_rindex_of(f@, '.');
            }
            if f.len() == 2 && f[0] == '.' && f[1] == '.' {
                assert(f@ == seq!['.', '.']);
                return None;
            }
            let mut i = f.len();
            assert(f@.take(i as int) == f@);
            while i > 0 && f[i - 1] != '.'
                invariant
                    i <= f@.len(),
                    rindex_of(f@, '.') == rindex_of(f@.take(i as int), '.'),
                decreases i,
            {
                proof {
                    assert(f@.take(i - 1) == f@.take(i as int).drop_last());
                }
                i -= 1;
            }
            if i <= 1 {
                proof {
                    if i == 1 {
                        assert(f@.take(1).last() == '.');
                    } else {
                        assert(f@.take(0).len() == 0);
                    }
                }
                return None;
            }
            proof {
                assert(f@.take(i as int).last() == '.');
                assert(rindex_of(f@, '.') == i - 1);
            }
            Some(slice_to_vec(&f, i, f.len()))
        },
    }
}

/// `PathBuf::push` on character vectors.
pub fn push_path_vec(acc: &mut Vec<char>, part: &[char])
    ensures
        final(acc)@ == push_path(old(acc)@, part@),
{
    if (part.len() > 0 && part[0] == '/') || acc.len() == 0 {
        acc.clear();
        push_all(acc, part);
        assert(acc@ =~= part@);
    } else if acc[acc.len() - 1] == '/' {
        push_all(acc, part);
    } else {
        acc.push('/');
        push_all(acc, part);
    }
}

/// `Path::join`.
pub fn join_paths(a: &str, b: &str) -> (r: String)
    ensures
        r@ == join(a@, b@),
{
    let mut acc = chars_of(a);
    let bv = chars_of(b);
    push_path_vec(&mut acc, &bv);
    string_of(&acc)
}

/// The parts of a path.
pub fn parts_vec(p: &[char]) -> (r: Vec<Vec<char>>)
    ensures
        seqs_of(r@) == parts_of(p@),
{
    let cs = comps_vec(p);
    if p.len() > 0 && p[0] == '/' {
        let mut r: Vec<Vec<char>> = Vec::new();
        let mut root: Vec<char> = Vec::new();
        root.push('/');
        r.push(root);
        let mut i: usize = 0;
        assert(seqs_of(r@) =~= seq![seq!['/']]);
        while i < cs.len()
            invariant
                i <= cs@.len(),
                seqs_of(r@) == seq![seq!['/']] + seqs_of(cs@).take(i as int),
            decreases cs@.len() - i,
        {
            let c = copy_vec(&cs[i]);
            let ghost r0 = r@;
            r.push(c);
            proof {
                lemma_seqs_of_push(r0, c);
                assert(seqs_of(cs@).take(i + 1) == seqs_of(cs@).take(i as int).push(cs@[i as int]@));
                assert(seqs_of(r@) =~= seq![seq!['/']] + seqs_of(cs@).take(i + 1));
            }
            i += 1;
        }
        assert(seqs_of(cs@).take(cs@.len() as int) == seqs_of(cs@));
        r
    } else {
        cs
    }
}

/// The path made of parts.
pub fn collect_vec(parts: &Vec<Vec<char>>) -> (r: Vec<char>)
    ensures
        r@ == collect(seqs_of(parts@)),
{
    let mut acc: Vec<char> = Vec::new();
    let mut i: usize = 0;
    while i < parts.len()
        invariant
            i <= parts@.len(),
            acc@ == collect(seqs_of(parts@).take(i as int)),
        decreases parts@.len() - i,
    {
        push_path_vec(&mut acc, &parts[i]);
        proof {
            let t = seqs_of(parts@).take(i + 1);
            assert(t.drop_last() == seqs_of(parts@).take(i as int));
            assert(t.last() == parts@[i as int]@);
        }
        i += 1;
    }
    assert(seqs_of(parts@).take(parts@.len() as int) == seqs_of(parts@));
    acc
}

fn is_dot_dot(c: &Vec<char>) -> (r: bool)
    ensures
        r == (c@ == seq!['.', '.']),
{
    if c.len() == 2 && c[0] == '.' && c[1] == '.' {
        assert(c@ =~= seq!['.', '.']);
        true
    } else {
        false
    }
}

/// Normalize a path by resolving `.` and `..` components without touching
/// the filesystem.
pub fn normalize_chars(p: &[char]) -> (r: Vec<char>)
    ensures
        r@ == normalize_spec(p@),
{
    let parts = parts_vec(p);
    let mut kept: Vec<Vec<char>> = Vec::new();
    let mut i: usize = 0;
    while i < parts.len()
        invariant
            i <= parts@.len(),
            seqs_of(kept@) == resolve_dots(seqs_of(parts@).take(i as int)),
        decreases parts@.len() - i,
    {
        let ghost k0 = kept@;
        proof {
            let t = seqs_of(parts@).take(i + 1);
            assert(t.drop_last() == seqs_of(parts@).take(i as int));
            assert(t.last() == parts@[i as int]@);
        }
        if is_dot_dot(&parts[i]) {
            let n = kept.len();
            if n > 0 && !(kept[n - 1].len() == 1 && kept[n - 1][0] == '/') {
                proof {
                    assert(seqs_of(k0).last() == kept@[n - 1]@);
                    if kept@[n - 1]@ == seq!['/'] {
                        assert(kept@[n - 1]@.len() == 1 && kept@[n - 1]@[0] == '/');
                    }
                }
                kept.pop();
                assert(seqs_of(kept@) =~= seqs_of(k0).drop_last());
            } else if n > 0 {
                assert(kept@[n - 1]@ =~= seq!['/']);
                assert(seqs_of(k0).last() == kept@[n - 1]@);
            }
        } else {
            let c = copy_vec(&parts[i]);
            kept.push(c);
            proof {
                lemma_seqs_of_push(k0, c);
            }
        }
        i += 1;
    }
    assert(seqs_of(parts@).take(parts@.len() as int) == seqs_of(parts@));
    collect_vec(&kept)
}

/// Normalize a path by resolving `.` and `..` components without touching
/// the filesystem.
pub fn normalize(path: &str) -> (r: String)
    ensures
        r@ == normalize_spec(path@),
{
    let p = chars_of(path);
    string_of(&normalize_chars(&p))
}

fn expand_chars(p: &[char], home: &[char]) -> (r: Vec<char>)
    ensures
        r@ == expand_tilde_spec(p@, home@),
{
    if p.len() == 1 && p[0] == '~' {
        assert(p@ =~= seq!['~']);
        return slice_to_vec(home, 0, home.len());
    }
    if p.len() >= 2 && p[0] == '~' && p[1] == '/' {
        assert(p@.take(2) =~= seq!['~', '/']);
        let rest = slice_to_vec(p, 2, p.len());
        let mut acc = slice_to_vec(home, 0, home.len());
        assert(home@.subrange(0, home@.len() as int) == home@);
        push_path_vec(&mut acc, &rest);
        return acc;
    }
    proof {
        if p@ == seq!['~'] {
            assert(p@.len() == 1);
        }
        if starts_with(p@, seq!['~', '/']) {
            assert(p@.take(2)[0] == p@[0]);
            assert(p@.take(2)[1] == p@[1]);
        }
    }
    assert(p@.subrange(0, p@.len() as int) == p@);
    slice_to_vec(p, 0, p.len())
}

/// Whether two paths have the same components (`Path`'s `==`).
pub fn same_path(a: &str, b: &str) -> (r: bool)
    ensures
        r == (parts_of(a@) == parts_of(b@)),
{
    let pa = parts_vec(&chars_of(a));
    let pb = parts_vec(&chars_of(b));
    let ghost sa = seqs_of(pa@);
    let ghost sb = seqs_of(pb@);
    if pa.len() != pb.len() {
        assert(sa.len() != sb.len());
        return false;
    }
    let mut i: usize = 0;
    while i < pa.len()
        invariant
            i <= pa@.len(),
            pa@.len() == pb@.len(),
            sa == seqs_of(pa@),
            sb == seqs_of(pb@),
            sa == parts_of(a@),
            sb == parts_of(b@),
            forall|k: int| 0 <= k < i ==> sa[k] == sb[k],
        decreases pa@.len() - i,
    {
        if !same(&pa[i], &pb[i]) {
            assert(sa[i as int] != sb[i as int]);
            assert(!(sa =~= sb));
            return false;
        }
        i += 1;
    }
    assert(sa =~= sb);
    true
}

/// Expand a leading `~` to the user's home directory.
pub fn expand_tilde(path: &str, home: &str) -> (r: String)
    ensures
        r@ == expand_tilde_spec(path@, home@),
{
    let p = chars_of(path);
    let h = chars_of(home);
    string_of(&expand_chars(&p, &h))
}

/// Resolve a path to an absolute, normalized path: expands `~` and resolves
/// `.` / `..` components, taking a relative path from `cwd`.
pub fn resolve(path: &str, home: &str, cwd: &str) -> (r: String)
    ensures
        r@ == resolve_spec(path@, home@, cwd@),
{
    let p = chars_of(path);
    let h = chars_of(home);
    let e = expand_chars(&p, &h);
    if e.len() > 0 && e[0] == '/' {
        string_of(&normalize_chars(&e))
    } else {
        let mut c = chars_of(cwd);
        push_path_vec(&mut c, &e);
        string_of(&normalize_chars(&c))
    }
}

fn strip_prefix_vec(p: &[char], base: &[char]) -> (r: Option<Vec<char>>)
    ensures
        match r {
            Some(rest) => strip_prefix(p@, base@) == Some(rest@),
            None => strip_prefix(p@, base@) is None,
        },
{
    let pp = parts_vec(p);
    let bp = parts_vec(base);
    let ghost ps = seqs_of(pp@);
    let ghost bs = seqs_of(bp@);
    if bp.len() > pp.len() {
        return None;
    }
    let mut i: usize = 0;
    while i < bp.len()
        invariant
            i <= bp@.len() <= pp@.len(),
            ps == seqs_of(pp@),
            bs == seqs_of(bp@),
            ps == parts_of(p@),
            bs == parts_of(base@),
            forall|k: int| 0 <= k < i ==> ps[k] == bs[k],
        decreases bp@.len() - i,
    {
        if !same(&pp[i], &bp[i]) {
            proof {
                assert(ps.take(bs.len() as int)[i as int] != bs[i as int]);
                assert(!(ps.take(bs.len() as int) =~= bs));
            }
            return None;
        }
        i += 1;
    }
    assert(ps.take(bs.len() as int) =~= bs);
    let mut rest: Vec<Vec<char>> = Vec::new();
    let mut j = bp.len();
    let ghost start = bp@.len() as int;
    while j < pp.len()
        invariant
            0 <= start <= j <= pp@.len(),
            ps == seqs_of(pp@),
            ps.len() == pp@.len(),
            seqs_of(rest@) == ps.subrange(start, j as int),
        decreases pp@.len() - j,
    {
        let c = copy_vec(&pp[j]);
        let ghost r0 = rest@;
        rest.push(c);
        proof {
            lemma_seqs_of_push(r0, c);
            assert(ps.subrange(start, j + 1) =~= ps.subrange(start, j as int).push(ps[j as int]));
        }
        j += 1;
    }
    assert(ps.subrange(start, ps.len() as int) == ps.skip(start));
    Some(collect_vec(&rest))
}

/// Replace a home directory prefix with `~`.
pub fn collapse_tilde(path: &str, home: &str) -> (r: String)
    ensures
        r@ == collapse_tilde_spec(path@, home@),
{
    let p = chars_of(path);
    let h = chars_of(home);
    match strip_prefix_vec(&p, &h) {
        Some(rest) => {
            let mut acc: Vec<char> = Vec::new();
            acc.push('~');
            assert(acc@ =~= seq!['~']);
            push_path_vec(&mut acc, &rest);
            string_of(&acc)
        },
        None => string_of(&p),
    }
}

/// Compute a relative path from `base` to `target`.
///
/// Returns `None` if no relative path can be computed (non-absolute paths).
pub fn relative_to(target: &str, base: &str) -> (r: Option<String>)
    ensures
        match r {
            Some(s) => relative_to_spec(target@, base@) == Some(s@),
            None => relative_to_spec(target@, base@) is None,
        },
{
    let t = chars_of(target);
    let b = chars_of(base);
    if !(t.len() > 0 && t[0] == '/') || !(b.len() > 0 && b[0] == '/') {
        return None;
    }
    let tp = parts_vec(&t);
    let bp = parts_vec(&b);
    let ghost ts = seqs_of(tp@);
    let ghost bs = seqs_of(bp@);
    let mut k: usize = 0;
    proof {
        lemma_common_len(ts, bs, 0);
    }
    while k < tp.len() && k < bp.len() && same(&tp[k], &bp[k])
        invariant
            k <= tp@.len(),
            k <= bp@.len(),
            ts == seqs_of(tp@),
            bs == seqs_of(bp@),
            common_len(ts, bs, 0) == common_len(ts, bs, k as nat),
        decreases tp@.len() - k,
    {
        k += 1;
    }
    let ghost kk = common_len(ts, bs, 0);
    assert(kk == k);
    proof {
        lemma_common_len(ts, bs, 0);
    }
    let mut parts: Vec<Vec<char>> = Vec::new();
    let mut u = k;
    while u < bp.len()
        invariant
            k <= u <= bp@.len(),
            seqs_of(parts@) == Seq::new((u - k) as nat, |i: int| seq!['.', '.']),
        decreases bp@.len() - u,
    {
        let mut up: Vec<char> = Vec::new();
        up.push('.');
        up.push('.');
        let ghost p0 = parts@;
        parts.push(up);
        proof {
            lemma_seqs_of_push(p0, up);
            assert(up@ =~= seq!['.', '.']);
            assert(seqs_of(parts@) =~= Seq::new((u + 1 - k) as nat, |i: int| seq!['.', '.']));
        }
        u += 1;
    }
    let ghost ups = seqs_of(parts@);
    let mut w = k;
    while w < tp.len()
        invariant
            k <= w <= tp@.len(),
            ts == seqs_of(tp@),
            seqs_of(parts@) == ups + ts.subrange(k as int, w as int),
        decreases tp@.len() - w,
    {
        let c = copy_vec(&tp[w]);
        let ghost p0 = parts@;
        parts.push(c);
        proof {
            lemma_seqs_of_push(p0, c);
            assert(ts.subrange(k as int, w + 1) == ts.subrange(k as int, w as int).push(ts[w as int]));
            assert(seqs_of(parts@) =~= ups + ts.subrange(k as int, w + 1));
        }
        w += 1;
    }
    assert(ts.subrange(k as int, ts.len() as int) == ts.skip(k as int));
    Some(string_of(&collect_vec(&parts)))
}

pub proof fn lemma_common_len(a: Seq<Seq<char>>, b: Seq<Seq<char>>, k: nat)
    ensures
        k <= a.len() ==> k <= common_len(a, b, k) <= a.len(),
    decreases a.len() - k,
{
    if k < a.len() && k < b.len() && a[k as int] == b[k as int] {
        lemma_common_len(a, b, k + 1);
    }
}

/// The text after the leading dots.
pub fn trim_dots_vec(s: &[char]) -> (r: Vec<char>)
    ensures
        r@ == trim_dots(s@),
{
    let mut i: usize = 0;
    assert(s@.skip(0) == s@);
    while i < s.len() && s[i] == '.'
        invariant
            i <= s@.len(),
            trim_dots(s@) == trim_dots(s@.skip(i as int)),
        decreases s@.len() - i,
    {
        assert(s@.skip(i as int).drop_first() == s@.skip(i + 1));
        i += 1;
    }
    let r = slice_to_vec(s, i, s.len());
    assert(r@ == s@.skip(i as int));
    r
}

fn rule_hit_exec(rel: &[char], name: &[char], pattern: &str) -> (r: bool)
    ensures
        r == rule_hit(rel@, name@, pattern@),
{
    let p = chars_of(pattern);
    let t = trim_dots_vec(&p);
    same(rel, &t) || same(name, &p)
}

fn category_exec(rel: &[char], name: &[char]) -> (r: Option<&'static str>)
    ensures
        match r {
            Some(c) => category_of(rel@, name@) == Some(c@),
            None => category_of(rel@, name@) is None,
        },
{
    if rule_hit_exec(rel, name, ".zshrc") || rule_hit_exec(rel, name, ".zshenv") || rule_hit_exec(
        rel,
        name,
        ".zprofile",
    ) || rule_hit_exec(rel, name, ".bashrc") || rule_hit_exec(rel, name, ".bash_profile")
        || rule_hit_exec(rel, name, ".profile") || rule_hit_exec(rel, name, ".fishrc") {
        Some("shell")
    } else if rule_hit_exec(rel, name, ".gitconfig") || rule_hit_exec(rel, name, ".gitignore_global") {
        Some("git")
    } else if rule_hit_exec(rel, name, ".vimrc") || rule_hit_exec(rel, name, ".gvimrc") {
        Some("vim")
    } else if rule_hit_exec(rel, name, ".tmux.conf") {
        Some("tmux")
    } else if rule_hit_exec(rel, name, ".ssh") {
        Some("ssh")
    } else if rule_hit_exec(rel, name, ".gnupg") {
        Some("gnupg")
    } else {
        None
    }
}

/// The repo path of a home-relative path.
pub fn repo_path_vec(rel: &[char]) -> (r: Vec<char>)
    ensures
        r@ == repo_path_of(rel@),
{
    let prefix = chars_of(".config/");
    proof {
        reveal_strlit(".config/");
    }
    if starts_with_vec(rel, &prefix) {
        let mut acc = chars_of("config");
        let rest = slice_to_vec(rel, 8, rel.len());
        assert(rest@ == rel@.skip(8));
        push_path_vec(&mut acc, &rest);
        return acc;
    }
    if same_str(rel, ".config") {
        return chars_of("config");
    }
    let name = match file_name_vec(rel) {
        Some(f) => f,
        None => Vec::new(),
    };
    match category_exec(rel, &name) {
        Some(cat) => {
            let mut acc = chars_of(cat);
            let clean = trim_dots_vec(&name);
            push_path_vec(&mut acc, &clean);
            acc
        },
        None => {
            let mut acc = chars_of("home");
            let clean = trim_dots_vec(rel);
            push_path_vec(&mut acc, &clean);
            acc
        },
    }
}

/// The message for a path outside the home directory.
pub open spec fn outside_home_message(p: Seq<char>) -> Seq<char> {
    "`"@ + p + "` is not inside the home directory"@
}

/// Map a home-directory path to a repo-relative path.
///
/// Examples:
/// - `~/.config/nvim` → `config/nvim`
/// - `~/.zshrc` → `shell/zshrc`
/// - `~/.gitconfig` → `git/gitconfig`
/// - `~/.somerc` → `home/somerc`
pub fn map_to_repo(home_path: &str, home: &str) -> (r: Result<String, Error>)
    ensures
        match strip_prefix(home_path@, home@) {
            Some(rel) => r matches Ok(s) && s@ == repo_path_of(rel),
            None => r matches Err(Error::User(m)) && m@ == outside_home_message(home_path@),
        },
{
    let p = chars_of(home_path);
    let h = chars_of(home);
    match strip_prefix_vec(&p, &h) {
        Some(rel) => Ok(string_of(&repo_path_vec(&rel))),
        None => {
            let mut v: Vec<char> = Vec::new();
            push_str(&mut v, "`");
            push_all(&mut v, &p);
            push_str(&mut v, "` is not inside the home directory");
            Err(Error::User(string_of(&v)))
        },
    }
}


// ── Collapsing and expanding `~` ──────────────────────────────────

/// A component of a path: not empty, not `.`, without a separator.
pub open spec fn is_component(c: Seq<char>) -> bool {
    c.len() > 0 && c != seq!['.'] && forall|k: int| 0 <= k < c.len() ==> c[k] != '/'
}

proof fn lemma_segments_concat(a: Seq<char>, b: Seq<char>)
    ensures
        segments(a + seq!['/'] + b) == segments(a) + segments(b),
    decreases a.len(),
{
    let s = a + seq!['/'] + b;
    lemma_index_of(a, '/');
    let i = index_of(a, '/');
    if i < 0 {
        assert forall|k: int| 0 <= k < a.len() implies s[k] != '/' by {
            assert(s[k] == a[k]);
        }
        lemma_index_of_at(s, '/', a.len() as int);
        assert(s.take(a.len() as int) == a);
        assert(s.skip(a.len() as int + 1) == b);
        assert(segments(a) == seq![a]);
    } else {
        assert forall|k: int| 0 <= k < i implies s[k] != '/' by {
            assert(s[k] == a[k]);
        }
        assert(s[i] == a[i]);
        lemma_index_of_at(s, '/', i);
        assert(s.take(i) == a.take(i));
        assert(s.skip(i + 1) == a.skip(i + 1) + seq!['/'] + b);
        lemma_segments_concat(a.skip(i + 1), b);
        assert(segments(s) == seq![a.take(i)] + segments(a.skip(i + 1) + seq!['/'] + b));
        assert(segments(a) == seq![a.take(i)] + segments(a.skip(i + 1)));
        assert(segments(s) =~= segments(a) + segments(b));
    }
}

proof fn lemma_named_concat(x: Seq<Seq<char>>, y: Seq<Seq<char>>)
    ensures
        named(x + y) == named(x) + named(y),
    decreases y.len(),
{
    if y.len() == 0 {
        assert(x + y =~= x);
        assert(named(x) + named(y) =~= named(x));
    } else {
        lemma_named_concat(x, y.drop_last());
        assert((x + y).drop_last() =~= x + y.drop_last());
        assert((x + y).last() == y.last());
        let l = y.last();
        if !(l.len() == 0 || l == seq!['.']) {
            assert(named(x) + named(y.drop_last()).push(l) =~= (named(x) + named(y.drop_last())).push(
                l,
            ));
        }
    }
}

proof fn lemma_comps_concat(a: Seq<char>, b: Seq<char>)
    ensures
        comps(a + seq!['/'] + b) == comps(a) + comps(b),
{
    lemma_segments_concat(a, b);
    lemma_named_concat(segments(a), segments(b));
}

proof fn lemma_comps_component(c: Seq<char>)
    requires
        is_component(c),
    ensures
        comps(c) == seq![c],
{
    lemma_index_of(c, '/');
    assert(segments(c) == seq![c]);
    assert(seq![c].drop_last() =~= Seq::<Seq<char>>::empty());
    assert(named(Seq::<Seq<char>>::empty()) == Seq::<Seq<char>>::empty());
    assert(Seq::<Seq<char>>::empty().push(c) =~= seq![c]);
}

proof fn lemma_comps_empty()
    ensures
        comps(Seq::<char>::empty()) == Seq::<Seq<char>>::empty(),
{
    let e = Seq::<char>::empty();
    lemma_index_of(e, '/');
    assert(segments(e) == seq![e]);
    assert(seq![e].drop_last() =~= Seq::<Seq<char>>::empty());
    assert(seq![e].last() == e);
    assert(named(seq![e]) == named(seq![e].drop_last()));
    assert(named(Seq::<Seq<char>>::empty()) == Seq::<Seq<char>>::empty());
}

proof fn lemma_segments_no_slash(p: Seq<char>)
    ensures
        forall|i: int, k: int|
            0 <= i < segments(p).len() && 0 <= k < segments(p)[i].len() ==> #[trigger] segments(
                p,
            )[i][k] != '/',
    decreases p.len(),
{
    lemma_index_of(p, '/');
    let i = index_of(p, '/');
    if i >= 0 {
        lemma_segments_no_slash(p.skip(i + 1));
        let s = segments(p);
        assert(s == seq![p.take(i)] + segments(p.skip(i + 1)));
        assert forall|j: int, k: int| 0 <= j < s.len() && 0 <= k < s[j].len() implies s[j][k]
            != '/' by {
            if j == 0 {
                assert(s[j] == p.take(i));
            } else {
                assert(s[j] == segments(p.skip(i + 1))[j - 1]);
            }
        }
    }
}

proof fn lemma_named_components(segs: Seq<Seq<char>>)
    requires
        forall|i: int, k: int| 0 <= i < segs.len() && 0 <= k < segs[i].len() ==> #[trigger] segs[i][k] != '/',
    ensures
        forall|j: int| 0 <= j < named(segs).len() ==> is_component(#[trigger] named(segs)[j]),
    decreases segs.len(),
{
    if segs.len() > 0 {
        let d = segs.drop_last();
        assert forall|i: int, k: int| 0 <= i < d.len() && 0 <= k < d[i].len() implies #[trigger] d[i][k]
            != '/' by {
            assert(d[i] == segs[i]);
        }
        lemma_named_components(d);
        let l = segs.last();
        assert forall|k: int| 0 <= k < l.len() implies l[k] != '/' by {
            assert(l == segs[segs.len() - 1]);
        }
        let nd = named(d);
        if l.len() == 0 || l == seq!['.'] {
            assert(named(segs) == nd);
        } else {
            assert(named(segs) == nd.push(l));
            assert(is_component(l));
            assert forall|j: int| 0 <= j < named(segs).len() implies is_component(
                #[trigger] named(segs)[j],
            ) by {
                if j < nd.len() {
                    assert(named(segs)[j] == nd[j]);
                } else {
                    assert(named(segs)[j] == l);
                }
            }
        }
    }
}

proof fn lemma_comps_are_components(p: Seq<char>)
    ensures
        forall|j: int| 0 <= j < comps(p).len() ==> is_component(#[trigger] comps(p)[j]),
{
    lemma_segments_no_slash(p);
    lemma_named_components(segments(p));
}

/// The components of a path made of components are those components; such
/// a path is relative and does not end with a separator.
proof fn lemma_collect_comps(rest: Seq<Seq<char>>)
    requires
        forall|i: int| 0 <= i < rest.len() ==> is_component(#[trigger] rest[i]),
    ensures
        comps(collect(rest)) == rest,
        rest.len() == 0 <==> collect(rest).len() == 0,
        collect(rest).len() > 0 ==> collect(rest)[0] != '/' && collect(rest).last() != '/',
    decreases rest.len(),
{
    if rest.len() == 0 {
        lemma_comps_empty();
    } else {
        let d = rest.drop_last();
        let l = rest.last();
        assert(is_component(rest[rest.len() - 1]));
        assert forall|i: int| 0 <= i < d.len() implies is_component(#[trigger] d[i]) by {
            assert(d[i] == rest[i]);
        }
        lemma_collect_comps(d);
        let c = collect(d);
        lemma_comps_component(l);
        if c.len() == 0 {
            assert(collect(rest) == l);
            assert(rest =~= seq![l]);
        } else {
            assert(collect(rest) == c + seq!['/'] + l);
            lemma_comps_concat(c, l);
            assert(d.push(l) =~= rest);
            assert(d + seq![l] =~= rest);
            let t = c + seq!['/'] + l;
            assert(t[0] == c[0]);
            assert(t.last() == l.last());
        }
    }
}

/// A path inside the home directory, written with `~` and expanded again,
/// names the same path (the same parts, as `Path` compares them).
pub proof fn law_collapse_then_expand(p: Seq<char>, home: Seq<char>)
    requires
        is_abs(home),
        strip_prefix(p, home) is Some,
    ensures
        parts_of(expand_tilde_spec(collapse_tilde_spec(p, home), home)) == parts_of(p),
{
    let pp = parts_of(p);
    let bp = parts_of(home);
    let n = bp.len() as int;
    let rest = pp.skip(n);
    lemma_comps_are_components(p);
    lemma_comps_are_components(home);
    assert(bp[0] == seq!['/']);
    assert(pp.take(n) == bp);
    assert(pp[0] == seq!['/']);
    if !is_abs(p) {
        assert(pp == comps(p));
        assert(is_component(comps(p)[0]));
        assert(comps(p)[0][0] == '/');
    }
    assert(is_abs(p));
    assert forall|i: int| 0 <= i < rest.len() implies is_component(#[trigger] rest[i]) by {
        assert(rest[i] == pp[i + n]);
        assert(pp[i + n] == comps(p)[i + n - 1]);
    }
    lemma_collect_comps(rest);
    let c = collect(rest);
    assert(strip_prefix(p, home) == Some(c));
    let t = collapse_tilde_spec(p, home);
    assert(!is_abs(c));
    assert(t == seq!['~'] + seq!['/'] + c);
    assert(t.take(2) =~= seq!['~', '/']);
    assert(t.skip(2) =~= c);
    assert(t != seq!['~']) by {
        assert(t.len() >= 2);
    }
    let e = expand_tilde_spec(t, home);
    assert(e == push_path(home, c));
    assert(pp =~= bp + rest);
    if home.last() == '/' {
        let h = home.drop_last();
        assert(home =~= h + seq!['/'] + Seq::<char>::empty());
        lemma_comps_concat(h, Seq::<char>::empty());
        lemma_comps_empty();
        assert(comps(home) =~= comps(h));
        assert(e =~= h + seq!['/'] + c);
        lemma_comps_concat(h, c);
        assert(e[0] == '/') by {
            if h.len() > 0 {
                assert(e[0] == h[0] && h[0] == home[0]);
            } else {
                assert(e[0] == '/');
            }
        }
        assert(parts_of(e) =~= seq![seq!['/']] + comps(h) + rest);
        assert(bp =~= seq![seq!['/']] + comps(h));
    } else {
        assert(e == home + seq!['/'] + c);
        lemma_comps_concat(home, c);
        assert(e[0] == home[0]);
        assert(parts_of(e) =~= seq![seq!['/']] + comps(home) + rest);
    }
}


// ── The category rules ────────────────────────────────────────────

/// A dotfile name that the category rules name: a dot, then a name that
/// does not start with a dot and holds no separator.
pub open spec fn rule_pattern(p: Seq<char>) -> bool {
    &&& p.len() >= 2
    &&& p[0] == '.'
    &&& p[1] != '.'
    &&& forall|k: int| 0 <= k < p.len() ==> p[k] != '/'
}

proof fn lemma_trim_one_dot(p: Seq<char>)
    requires
        rule_pattern(p),
    ensures
        trim_dots(p) == p.drop_first(),
{
    assert(trim_dots(p.drop_first()) == p.drop_first());
}

/// A path whose file name is the pattern `p` is not taken by a rule for
/// another pattern `q`.
proof fn lemma_rule_misses(rel: Seq<char>, p: Seq<char>, q: Seq<char>)
    requires
        file_name(rel) == Some(p),
        rule_pattern(p),
        rule_pattern(q),
        p != q,
    ensures
        !rule_hit(rel, p, q),
{
    lemma_trim_one_dot(q);
    let t = q.drop_first();
    if rel == t {
        assert(is_component(t)) by {
            assert forall|k: int| 0 <= k < t.len() implies t[k] != '/' by {
                assert(t[k] == q[k + 1]);
            }
            if t == seq!['.'] {
                assert(t[0] == q[1]);
            }
        }
        lemma_comps_component(t);
        assert(t != seq!['.', '.']) by {
            assert(t[0] == q[1]);
        }
        assert(file_name(rel) == Some(t));
        assert(p[0] != t[0]) by {
            assert(t[0] == q[1]);
        }
    }
}

/// A path whose file name is the pattern `p` is taken by the rule for `p`,
/// into `cat` under its name without the dot.
proof fn lemma_rule_hits(rel: Seq<char>, p: Seq<char>, cat: Seq<char>)
    requires
        rule_pattern(p),
        cat.len() > 0,
        cat.last() != '/',
    ensures
        rule_hit(rel, p, p),
        join(cat, trim_dots(p)) == cat + seq!['/'] + p.drop_first(),
{
    lemma_trim_one_dot(p);
    assert(!is_abs(p.drop_first())) by {
        assert(p.drop_first()[0] == p[1]);
    }
}

/// Each name that the category rules list maps into its own category: a
/// home-relative path (outside `.config/`) whose file name is one of them is
/// kept in the repo as the category, a separator, and the name without its
/// leading dot.
pub proof fn law_category_rules(rel: Seq<char>)
    requires
        !starts_with(rel, ".config/"@),
    ensures
        file_name(rel) == Some(".zshrc"@) ==> repo_path_of(rel) == "shell/zshrc"@,
        file_name(rel) == Some(".zshenv"@) ==> repo_path_of(rel) == "shell/zshenv"@,
        file_name(rel) == Some(".zprofile"@) ==> repo_path_of(rel) == "shell/zprofile"@,
        file_name(rel) == Some(".bashrc"@) ==> repo_path_of(rel) == "shell/bashrc"@,
        file_name(rel) == Some(".bash_profile"@) ==> repo_path_of(rel) == "shell/bash_profile"@,
        file_name(rel) == Some(".profile"@) ==> repo_path_of(rel) == "shell/profile"@,
        file_name(rel) == Some(".fishrc"@) ==> repo_path_of(rel) == "shell/fishrc"@,
        file_name(rel) == Some(".gitconfig"@) ==> repo_path_of(rel) == "git/gitconfig"@,
        file_name(rel) == Some(".gitignore_global"@) ==> repo_path_of(rel) == "git/gitignore_global"@,
        file_name(rel) == Some(".vimrc"@) ==> repo_path_of(rel) == "vim/vimrc"@,
        file_name(rel) == Some(".gvimrc"@) ==> repo_path_of(rel) == "vim/gvimrc"@,
        file_name(rel) == Some(".tmux.conf"@) ==> repo_path_of(rel) == "tmux/tmux.conf"@,
        file_name(rel) == Some(".ssh"@) ==> repo_path_of(rel) == "ssh/ssh"@,
        file_name(rel) == Some(".gnupg"@) ==> repo_path_of(rel) == "gnupg/gnupg"@,
{
    reveal_strlit(".zshrc");
    reveal_strlit(".zshenv");
    reveal_strlit(".zprofile");
    reveal_strlit(".bashrc");
    reveal_strlit(".bash_profile");
    reveal_strlit(".profile");
    reveal_strlit(".fishrc");
    reveal_strlit(".gitconfig");
    reveal_strlit(".gitignore_global");
    reveal_strlit(".vimrc");
    reveal_strlit(".gvimrc");
    reveal_strlit(".tmux.conf");
    reveal_strlit(".ssh");
    reveal_strlit(".gnupg");
    reveal_strlit("shell");
    reveal_strlit("git");
    reveal_strlit("vim");
    reveal_strlit("tmux");
    reveal_strlit("ssh");
    reveal_strlit("gnupg");
    reveal_strlit("shell/zshrc");
    reveal_strlit("shell/zshenv");
    reveal_strlit("shell/zprofile");
    reveal_strlit("shell/bashrc");
    reveal_strlit("shell/bash_profile");
    reveal_strlit("shell/profile");
    reveal_strlit("shell/fishrc");
    reveal_strlit("git/gitconfig");
    reveal_strlit("git/gitignore_global");
    reveal_strlit("vim/vimrc");
    reveal_strlit("vim/gvimrc");
    reveal_strlit("tmux/tmux.conf");
    reveal_strlit("ssh/ssh");
    reveal_strlit("gnupg/gnupg");
    reveal_strlit(".config");
    assert(rule_pattern(".zshrc"@));
    assert(rule_pattern(".zshenv"@));
    assert(rule_pattern(".zprofile"@));
    assert(rule_pattern(".bashrc"@));
    assert(rule_pattern(".bash_profile"@));
    assert(rule_pattern(".profile"@));
    assert(rule_pattern(".fishrc"@));
    assert(rule_pattern(".gitconfig"@));
    assert(rule_pattern(".gitignore_global"@));
    assert(rule_pattern(".vimrc"@));
    assert(rule_pattern(".gvimrc"@));
    assert(rule_pattern(".tmux.conf"@));
    assert(rule_pattern(".ssh"@));
    assert(rule_pattern(".gnupg"@));
    if file_name(rel) == Some(".zshrc"@) {
        assert(rel != ".config"@) by {
            if rel == ".config"@ {
                lemma_comps_component(".config"@);
            }
        }
        lemma_rule_hits(rel, ".zshrc"@, "shell"@);
        assert("shell"@ + seq!['/'] + ".zshrc"@.drop_first() =~= "shell/zshrc"@);
    }
    if file_name(rel) == Some(".zshenv"@) {
        assert(rel != ".config"@) by {
            if rel == ".config"@ {
                lemma_comps_component(".config"@);
            }
        }
        lemma_rule_misses(rel, ".zshenv"@, ".zshrc"@);
        lemma_rule_hits(rel, ".zshenv"@, "shell"@);
        assert("shell"@ + seq!['/'] + ".zshenv"@.drop_first() =~= "shell/zshenv"@);
    }
    if file_name(rel) == Some(".zprofile"@) {
        assert(rel != ".config"@) by {
            if rel == ".config"@ {
                lemma_comps_component(".config"@);
            }
        }
        lemma_rule_misses(rel, ".zprofile"@, ".zshrc"@);
        lemma_rule_misses(rel, ".zprofile"@, ".zshenv"@);
        lemma_rule_hits(rel, ".zprofile"@, "shell"@);
        assert("shell"@ + seq!['/'] + ".zprofile"@.drop_first() =~= "shell/zprofile"@);
    }
    if file_name(rel) == Some(".bashrc"@) {
        assert(rel != ".config"@) by {
            if rel == ".config"@ {
                lemma_comps_component(".config"@);
            }
        }
        lemma_rule_misses(rel, ".bashrc"@, ".zshrc"@);
        lemma_rule_misses(rel, ".bashrc"@, ".zshenv"@);
        lemma_rule_misses(rel, ".bashrc"@, ".zprofile"@);
        lemma_rule_hits(rel, ".bashrc"@, "shell"@);
        assert("shell"@ + seq!['/'] + ".bashrc"@.drop_first() =~= "shell/bashrc"@);
    }
    if file_name(rel) == Some(".bash_profile"@) {
        assert(rel != ".config"@) by {
            if rel == ".config"@ {
                lemma_comps_component(".config"@);
            }
        }
        lemma_rule_misses(rel, ".bash_profile"@, ".zshrc"@);
        lemma_rule_misses(rel, ".bash_profile"@, ".zshenv"@);
        lemma_rule_misses(rel, ".bash_profile"@, ".zprofile"@);
        lemma_rule_misses(rel, ".bash_profile"@, ".bashrc"@);
        lemma_rule_hits(rel, ".bash_profile"@, "shell"@);
        assert("shell"@ + seq!['/'] + ".bash_profile"@.drop_first() =~= "shell/bash_profile"@);
    }
    if file_name(rel) == Some(".profile"@) {
        assert(rel != ".config"@) by {
            if rel == ".config"@ {
                lemma_comps_component(".config"@);
            }
        }
        lemma_rule_misses(rel, ".profile"@, ".zshrc"@);
        lemma_rule_misses(rel, ".profile"@, ".zshenv"@);
        lemma_rule_misses(rel, ".profile"@, ".zprofile"@);
        lemma_rule_misses(rel, ".profile"@, ".bashrc"@);
        lemma_rule_misses(rel, ".profile"@, ".bash_profile"@);
        lemma_rule_hits(rel, ".profile"@, "shell"@);
        assert("shell"@ + seq!['/'] + ".profile"@.drop_first() =~= "shell/profile"@);
    }
    if file_name(rel) == Some(".fishrc"@) {
        assert(rel != ".config"@) by {
            if rel == ".config"@ {
                lemma_comps_component(".config"@);
            }
        }
        lemma_rule_misses(rel, ".fishrc"@, ".zshrc"@);
        lemma_rule_misses(rel, ".fishrc"@, ".zshenv"@);
        lemma_rule_misses(rel, ".fishrc"@, ".zprofile"@);
        lemma_rule_misses(rel, ".fishrc"@, ".bashrc"@);
        lemma_rule_misses(rel, ".fishrc"@, ".bash_profile"@);
        lemma_rule_misses(rel, ".fishrc"@, ".profile"@);
        lemma_rule_hits(rel, ".fishrc"@, "shell"@);
        assert("shell"@ + seq!['/'] + ".fishrc"@.drop_first() =~= "shell/fishrc"@);
    }
    if file_name(rel) == Some(".gitconfig"@) {
        assert(rel != ".config"@) by {
            if rel == ".config"@ {
                lemma_comps_component(".config"@);
            }
        }
        lemma_rule_misses(rel, ".gitconfig"@, ".zshrc"@);
        lemma_rule_misses(rel, ".gitconfig"@, ".zshenv"@);
        lemma_rule_misses(rel, ".gitconfig"@, ".zprofile"@);
        lemma_rule_misses(rel, ".gitconfig"@, ".bashrc"@);
        lemma_rule_misses(rel, ".gitconfig"@, ".bash_profile"@);
        lemma_rule_misses(rel, ".gitconfig"@, ".profile"@);
        lemma_rule_misses(rel, ".gitconfig"@, ".fishrc"@);
        lemma_rule_hits(rel, ".gitconfig"@, "git"@);
        assert("git"@ + seq!['/'] + ".gitconfig"@.drop_first() =~= "git/gitconfig"@);
    }
    if file_name(rel) == Some(".gitignore_global"@) {
        assert(rel != ".config"@) by {
            if rel == ".config"@ {
                lemma_comps_component(".config"@);
            }
        }
        lemma_rule_misses(rel, ".gitignore_global"@, ".zshrc"@);
        lemma_rule_misses(rel, ".gitignore_global"@, ".zshenv"@);
        lemma_rule_misses(rel, ".gitignore_global"@, ".zprofile"@);
        lemma_rule_misses(rel, ".gitignore_global"@, ".bashrc"@);
        lemma_rule_misses(rel, ".gitignore_global"@, ".bash_profile"@);
        lemma_rule_misses(rel, ".gitignore_global"@, ".profile"@);
        lemma_rule_misses(rel, ".gitignore_global"@, ".fishrc"@);
        lemma_rule_misses(rel, ".gitignore_global"@, ".gitconfig"@);
        lemma_rule_hits(rel, ".gitignore_global"@, "git"@);
        assert("git"@ + seq!['/'] + ".gitignore_global"@.drop_first() =~= "git/gitignore_global"@);
    }
    if file_name(rel) == Some(".vimrc"@) {
        assert(rel != ".config"@) by {
            if rel == ".config"@ {
                lemma_comps_component(".config"@);
            }
        }
        lemma_rule_misses(rel, ".vimrc"@, ".zshrc"@);
        lemma_rule_misses(rel, ".vimrc"@, ".zshenv"@);
        lemma_rule_misses(rel, ".vimrc"@, ".zprofile"@);
        lemma_rule_misses(rel, ".vimrc"@, ".bashrc"@);
        lemma_rule_misses(rel, ".vimrc"@, ".bash_profile"@);
        lemma_rule_misses(rel, ".vimrc"@, ".profile"@);
        lemma_rule_misses(rel, ".vimrc"@, ".fishrc"@);
        lemma_rule_misses(rel, ".vimrc"@, ".gitconfig"@);
        lemma_rule_misses(rel, ".vimrc"@, ".gitignore_global"@);
        lemma_rule_hits(rel, ".vimrc"@, "vim"@);
        assert("vim"@ + seq!['/'] + ".vimrc"@.drop_first() =~= "vim/vimrc"@);
    }
    if file_name(rel) == Some(".gvimrc"@) {
        assert(rel != ".config"@) by {
            if rel == ".config"@ {
                lemma_comps_component(".config"@);
            }
        }
        lemma_rule_misses(rel, ".gvimrc"@, ".zshrc"@);
        lemma_rule_misses(rel, ".gvimrc"@, ".zshenv"@);
        lemma_rule_misses(rel, ".gvimrc"@, ".zprofile"@);
        lemma_rule_misses(rel, ".gvimrc"@, ".bashrc"@);
        lemma_rule_misses(rel, ".gvimrc"@, ".bash_profile"@);
        lemma_rule_misses(rel, ".gvimrc"@, ".profile"@);
        lemma_rule_misses(rel, ".gvimrc"@, ".fishrc"@);
        lemma_rule_misses(rel, ".gvimrc"@, ".gitconfig"@);
        lemma_rule_misses(rel, ".gvimrc"@, ".gitignore_global"@);
        lemma_rule_misses(rel, ".gvimrc"@, ".vimrc"@);
        lemma_rule_hits(rel, ".gvimrc"@, "vim"@);
        assert("vim"@ + seq!['/'] + ".gvimrc"@.drop_first() =~= "vim/gvimrc"@);
    }
    if file_name(rel) == Some(".tmux.conf"@) {
        assert(rel != ".config"@) by {
            if rel == ".config"@ {
                lemma_comps_component(".config"@);
            }
        }
        lemma_rule_misses(rel, ".tmux.conf"@, ".zshrc"@);
        lemma_rule_misses(rel, ".tmux.conf"@, ".zshenv"@);
        lemma_rule_misses(rel, ".tmux.conf"@, ".zprofile"@);
        lemma_rule_misses(rel, ".tmux.conf"@, ".bashrc"@);
        lemma_rule_misses(rel, ".tmux.conf"@, ".bash_profile"@);
        lemma_rule_misses(rel, ".tmux.conf"@, ".profile"@);
        lemma_rule_misses(rel, ".tmux.conf"@, ".fishrc"@);
        lemma_rule_misses(rel, ".tmux.conf"@, ".gitconfig"@);
        lemma_rule_misses(rel, ".tmux.conf"@, ".gitignore_global"@);
        lemma_rule_misses(rel, ".tmux.conf"@, ".vimrc"@);
        lemma_rule_misses(rel, ".tmux.conf"@, ".gvimrc"@);
        lemma_rule_hits(rel, ".tmux.conf"@, "tmux"@);
        assert("tmux"@ + seq!['/'] + ".tmux.conf"@.drop_first() =~= "tmux/tmux.conf"@);
    }
    if file_name(rel) == Some(".ssh"@) {
        assert(rel != ".config"@) by {
            if rel == ".config"@ {
                lemma_comps_component(".config"@);
            }
        }
        lemma_rule_misses(rel, ".ssh"@, ".zshrc"@);
        lemma_rule_misses(rel, ".ssh"@, ".zshenv"@);
        lemma_rule_misses(rel, ".ssh"@, ".zprofile"@);
        lemma_rule_misses(rel, ".ssh"@, ".bashrc"@);
        lemma_rule_misses(rel, ".ssh"@, ".bash_profile"@);
        lemma_rule_misses(rel, ".ssh"@, ".profile"@);
        lemma_rule_misses(rel, ".ssh"@, ".fishrc"@);
        lemma_rule_misses(rel, ".ssh"@, ".gitconfig"@);
        lemma_rule_misses(rel, ".ssh"@, ".gitignore_global"@);
        lemma_rule_misses(rel, ".ssh"@, ".vimrc"@);
        lemma_rule_misses(rel, ".ssh"@, ".gvimrc"@);
        lemma_rule_misses(rel, ".ssh"@, ".tmux.conf"@);
        lemma_rule_hits(rel, ".ssh"@, "ssh"@);
        assert("ssh"@ + seq!['/'] + ".ssh"@.drop_first() =~= "ssh/ssh"@);
    }
    if file_name(rel) == Some(".gnupg"@) {
        assert(rel != ".config"@) by {
            if rel == ".config"@ {
                lemma_comps_component(".config"@);
            }
        }
        lemma_rule_misses(rel, ".gnupg"@, ".zshrc"@);
        lemma_rule_misses(rel, ".gnupg"@, ".zshenv"@);
        lemma_rule_misses(rel, ".gnupg"@, ".zprofile"@);
        lemma_rule_misses(rel, ".gnupg"@, ".bashrc"@);
        lemma_rule_misses(rel, ".gnupg"@, ".bash_profile"@);
        lemma_rule_misses(rel, ".gnupg"@, ".profile"@);
        lemma_rule_misses(rel, ".gnupg"@, ".fishrc"@);
        lemma_rule_misses(rel, ".gnupg"@, ".gitconfig"@);
        lemma_rule_misses(rel, ".gnupg"@, ".gitignore_global"@);
        lemma_rule_misses(rel, ".gnupg"@, ".vimrc"@);
        lemma_rule_misses(rel, ".gnupg"@, ".gvimrc"@);
        lemma_rule_misses(rel, ".gnupg"@, ".tmux.conf"@);
        lemma_rule_misses(rel, ".gnupg"@, ".ssh"@);
        lemma_rule_hits(rel, ".gnupg"@, "gnupg"@);
        assert("gnupg"@ + seq!['/'] + ".gnupg"@.drop_first() =~= "gnupg/gnupg"@);
    }
}

} // verus!
