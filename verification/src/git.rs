//! Git operations: the arguments each operation runs `git` with, and how
//! git's answers are read. Running the `git` process is the caller's;
//! non-zero exit codes become [`DotlingError::Git`].

use vstd::prelude::*;

use crate::crypto::{byte_len, utf8_width};
use crate::error::DotlingError;
use crate::text::{
    chars_of, find, find_seq, lines, lines_vec, push_str, starts_with, string_of, trim, trim_vec,
};

verus! {

/// Result of a `git pull --rebase` operation.
#[derive(Debug, Clone, Copy, PartialEq, Eq, Structural)]
pub enum PullResult {
    /// The repo was already up-to-date.
    UpToDate,
    /// The repo was updated, with this many files changed.
    Updated(usize),
    /// There was a merge/rebase conflict.
    Conflict,
}

/// Wrapper for git CLI operations on a repository.
pub struct Git {
    /// The absolute path to the repository root.
    pub repo_root: String,
}

pub open spec fn args_view(v: Seq<String>) -> Seq<Seq<char>> {
    v.map_values(|s: String| s@)
}

fn args2(a: &str, b: &str) -> (r: Vec<String>)
    ensures
        args_view(r@) == seq![a@, b@],
{
    let mut v: Vec<String> = Vec::new();
    v.push(a.to_string());
    v.push(b.to_string());
    assert(args_view(v@) =~= seq![a@, b@]);
    v
}

fn args3(a: &str, b: &str, c: &str) -> (r: Vec<String>)
    ensures
        args_view(r@) == seq![a@, b@, c@],
{
    let mut v: Vec<String> = Vec::new();
    v.push(a.to_string());
    v.push(b.to_string());
    v.push(c.to_string());
    assert(args_view(v@) =~= seq![a@, b@, c@]);
    v
}

fn args4(a: &str, b: &str, c: &str, d: &str) -> (r: Vec<String>)
    ensures
        args_view(r@) == seq![a@, b@, c@, d@],
{
    let mut v: Vec<String> = Vec::new();
    v.push(a.to_string());
    v.push(b.to_string());
    v.push(c.to_string());
    v.push(d.to_string());
    assert(args_view(v@) =~= seq![a@, b@, c@, d@]);
    v
}

pub open spec fn not_installed_message() -> Seq<char> {
    "git is not installed or not in PATH"@
}

/// The answer of a git command: its output when it succeeded, else its
/// error output trimmed; `None` when git could not be started.
pub fn git_output(ran: Option<(bool, &str, &str)>) -> (r: Result<String, DotlingError>)
    ensures
        match ran {
            None => r matches Err(DotlingError::Git(m)) && m@ == not_installed_message(),
            Some((true, out, _)) => r matches Ok(s) && s@ == out@,
            Some((false, _, err)) => r matches Err(DotlingError::Git(m)) && m@ == trim(err@),
        },
{
    match ran {
        None => Err(DotlingError::Git("git is not installed or not in PATH".to_string())),
        Some((ok, out, err)) => {
            if ok {
                Ok(out.to_string())
            } else {
                Err(DotlingError::Git(string_of(&trim_vec(&chars_of(err)))))
            }
        },
    }
}

/// The number of files a pull's output reports: lines with a `|` or
/// starting with a space, at least one.
pub open spec fn changed_count(ls: Seq<Seq<char>>) -> nat
    decreases ls.len(),
{
    if ls.len() == 0 {
        0
    } else {
        changed_count(ls.drop_last()) + if find(ls.last(), "|"@) >= 0 || starts_with(
            ls.last(),
            " "@,
        ) {
            1nat
        } else {
            0nat
        }
    }
}

/// How a `git pull --rebase` went, from its success and output.
pub open spec fn pull_result_spec(success: bool, stdout: Seq<char>, stderr: Seq<char>) -> Result<PullResult, Seq<char>> {
    if !success {
        let combined = stdout + stderr;
        if find(combined, "CONFLICT"@) >= 0 || find(combined, "conflict"@) >= 0 {
            Ok(PullResult::Conflict)
        } else {
            Err(trim(stderr))
        }
    } else if find(stdout, "Already up to date"@) >= 0 || find(stdout, "Already up-to-date"@) >= 0 {
        Ok(PullResult::UpToDate)
    } else {
        let n = changed_count(lines(stdout));
        Ok(PullResult::Updated(if n >= 1 {
            n as usize
        } else {
            1
        }))
    }
}

fn contains(s: &[char], p: &str) -> (r: bool)
    ensures
        r == (find(s@, p@) >= 0),
{
    let pv = chars_of(p);
    find_seq(s, &pv, 0).is_some()
}

/// Read the answer of `git pull --rebase`.
pub fn pull_result(success: bool, stdout: &str, stderr: &str) -> (r: Result<PullResult, DotlingError>)
    ensures
        match pull_result_spec(success, stdout@, stderr@) {
            Ok(p) => r == Ok::<PullResult, DotlingError>(p),
            Err(m) => r matches Err(DotlingError::Git(e)) && e@ == m,
        },
{
    let out = chars_of(stdout);
    if !success {
        let mut combined = chars_of(stdout);
        let err = chars_of(stderr);
        let mut i: usize = 0;
        while i < err.len()
            invariant
                i <= err@.len(),
                combined@ == stdout@ + err@.take(i as int),
            decreases err@.len() - i,
        {
            combined.push(err[i]);
            assert(err@.take(i + 1) == err@.take(i as int).push(err@[i as int]));
            i += 1;
        }
        assert(err@.take(err@.len() as int) == err@);
        if contains(&combined, "CONFLICT") || contains(&combined, "conflict") {
            return Ok(PullResult::Conflict);
        }
        return Err(DotlingError::Git(string_of(&trim_vec(&err))));
    }
    if contains(&out, "Already up to date") || contains(&out, "Already up-to-date") {
        return Ok(PullResult::UpToDate);
    }
    let ls = lines_vec(&out);
    let ghost lv = lines(stdout@);
    let mut n: usize = 0;
    let mut i: usize = 0;
    while i < ls.len()
        invariant
            i <= ls@.len(),
            ls@.len() == lv.len(),
            forall|k: int| 0 <= k < ls@.len() ==> ls@[k]@ == lv[k],
            n as nat == changed_count(lv.take(i as int)),
            n <= i,
        decreases ls@.len() - i,
    {
        let l = &ls[i];
        proof {
            assert(lv.take(i + 1).drop_last() == lv.take(i as int));
            assert(lv.take(i + 1).last() == lv[i as int]);
            reveal_strlit(" ");
        }
        let starts_space = l.len() > 0 && l[0] == ' ';
        proof {
            if starts_space {
                assert(l@.take(1) =~= " "@);
            } else if starts_with(l@, " "@) {
                assert(l@.take(1)[0] == l@[0]);
            }
        }
        if contains(l, "|") || starts_space {
            n += 1;
        }
        i += 1;
    }
    assert(lv.take(lv.len() as int) == lv);
    Ok(PullResult::Updated(if n >= 1 {
        n
    } else {
        1
    }))
}

/// The characters of a line after its first three bytes.
pub open spec fn after_three_bytes(l: Seq<char>) -> Seq<char> {
    l.skip(chars_in_three_bytes(l))
}

/// How many characters make up the first three bytes of `l`.
pub open spec fn chars_in_three_bytes(l: Seq<char>) -> int {
    choose|k: int| 0 <= k <= l.len() && byte_len(l.take(k)) == 3
}

/// Slicing a line at byte 3 keeps characters whole.
pub open spec fn three_byte_prefix(l: Seq<char>) -> bool {
    exists|k: int| 0 <= k <= l.len() && byte_len(l.take(k)) == 3
}

/// Every non-empty line of `git status --porcelain` can be cut at byte 3.
pub open spec fn porcelain_ok(out: Seq<char>) -> bool {
    forall|i: int| 0 <= i < lines(out).len() && lines(out)[i].len() > 0 ==> three_byte_prefix(
        #[trigger] lines(out)[i],
    )
}

/// The files of `git status --porcelain`: each non-empty line without its
/// status columns.
pub open spec fn porcelain_files(ls: Seq<Seq<char>>) -> Seq<Seq<char>>
    decreases ls.len(),
{
    if ls.len() == 0 {
        Seq::empty()
    } else if ls.last().len() == 0 {
        porcelain_files(ls.drop_last())
    } else {
        porcelain_files(ls.drop_last()).push(after_three_bytes(ls.last()))
    }
}

proof fn lemma_byte_len_mono(l: Seq<char>, a: int, b: int)
    requires
        0 <= a <= b <= l.len(),
    ensures
        byte_len(l.take(a)) <= byte_len(l.take(b)),
        a < b ==> byte_len(l.take(a)) < byte_len(l.take(b)),
    decreases b - a,
{
    if a < b {
        lemma_byte_len_mono(l, a, b - 1);
        assert(l.take(b).drop_last() == l.take(b - 1));
    }
}

fn cut_three_bytes(l: &[char]) -> (r: Vec<char>)
    requires
        three_byte_prefix(l@),
    ensures
        r@ == after_three_bytes(l@),
{
    let ghost k = chars_in_three_bytes(l@);
    let mut i: usize = 0;
    let mut b: usize = 0;
    while b < 3 && i < l.len()
        invariant
            i <= l@.len(),
            0 <= k <= l@.len(),
            byte_len(l@.take(k)) == 3,
            b as nat == byte_len(l@.take(i as int)),
            b <= 3,
            i <= k,
        decreases l@.len() - i,
    {
        proof {
            assert(l@.take(i + 1).drop_last() == l@.take(i as int));
            if i + 1 <= k {
                lemma_byte_len_mono(l@, i + 1, k);
            } else {
                assert(i == k);
            }
        }
        let c = l[i] as u32;
        let w: usize = if c < 0x80 {
            1
        } else if c < 0x800 {
            2
        } else if c < 0x10000 {
            3
        } else {
            4
        };
        b = b + w;
        i += 1;
    }
    proof {
        if (i as int) < k {
            lemma_byte_len_mono(l@, i as int, k);
        }
    }
    slice_from(l, i)
}

fn slice_from(l: &[char], i: usize) -> (r: Vec<char>)
    requires
        i <= l@.len(),
    ensures
        r@ == l@.skip(i as int),
{
    let mut v: Vec<char> = Vec::new();
    let mut j = i;
    while j < l.len()
        invariant
            i <= j <= l@.len(),
            v@ == l@.subrange(i as int, j as int),
        decreases l@.len() - j,
    {
        v.push(l[j]);
        assert(l@.subrange(i as int, j + 1) == l@.subrange(i as int, j as int).push(l@[j as int]));
        j += 1;
    }
    assert(l@.subrange(i as int, l@.len() as int) == l@.skip(i as int));
    v
}

impl Git {
    /// Creates a new git wrapper for the given repo root.
    pub fn new(repo_root: &str) -> (r: Git)
        ensures
            r.repo_root@ == repo_root@,
    {
        Git { repo_root: repo_root.to_string() }
    }

    /// Arguments that initialize a new git repository.
    pub fn init(&self) -> (r: Vec<String>)
        ensures
            args_view(r@) == seq!["init"@],
    {
        let mut v: Vec<String> = Vec::new();
        v.push("init".to_string());
        assert(args_view(v@) =~= seq!["init"@]);
        v
    }

    /// Arguments that add a remote to the repository.
    pub fn add_remote(&self, name: &str, url: &str) -> (r: Vec<String>)
        ensures
            args_view(r@) == seq!["remote"@, "add"@, name@, url@],
    {
        args4("remote", "add", name, url)
    }

    /// Arguments that stage a single file.
    pub fn stage(&self, path: &str) -> (r: Vec<String>)
        ensures
            args_view(r@) == seq!["add"@, path@],
    {
        args2("add", path)
    }

    /// Arguments that stage all changes in the repository.
    pub fn stage_all(&self) -> (r: Vec<String>)
        ensures
            args_view(r@) == seq!["add"@, "-A"@],
    {
        args2("add", "-A")
    }

    /// Arguments that list the working tree's changes.
    pub fn status_args(&self) -> (r: Vec<String>)
        ensures
            args_view(r@) == seq!["status"@, "--porcelain"@],
    {
        args2("status", "--porcelain")
    }

    /// Committing is skipped when `git status --porcelain` printed nothing;
    /// otherwise the arguments that commit with the message.
    pub fn commit(&self, status_output: &str, message: &str) -> (r: Option<Vec<String>>)
        ensures
            trim(status_output@).len() == 0 ==> r is None,
            trim(status_output@).len() > 0 ==> (r matches Some(v) && args_view(v@) == seq![
                "commit"@,
                "-m"@,
                message@,
            ]),
    {
        let t = trim_vec(&chars_of(status_output));
        if t.len() == 0 {
            None
        } else {
            Some(args3("commit", "-m", message))
        }
    }

    /// Arguments that print the current branch.
    pub fn branch_args(&self) -> (r: Vec<String>)
        ensures
            args_view(r@) == seq!["rev-parse"@, "--abbrev-ref"@, "HEAD"@],
    {
        args3("rev-parse", "--abbrev-ref", "HEAD")
    }

    /// The current branch from `git rev-parse --abbrev-ref HEAD`.
    pub fn current_branch(&self, output: &str) -> (r: String)
        ensures
            r@ == trim(output@),
    {
        string_of(&trim_vec(&chars_of(output)))
    }

    /// Arguments that push the branch to `origin`.
    pub fn push(&self, branch: &str) -> (r: Vec<String>)
        ensures
            args_view(r@) == seq!["push"@, "-u"@, "origin"@, branch@],
    {
        args4("push", "-u", "origin", branch)
    }

    /// Whether `git remote` listed any remote.
    pub fn has_remote(&self, output: &str) -> (r: bool)
        ensures
            r == (trim(output@).len() > 0),
    {
        trim_vec(&chars_of(output)).len() > 0
    }

    /// The changed files listed by `git status --porcelain`.
    pub fn changed_files(&self, output: &str) -> (r: Vec<String>)
        requires
            porcelain_ok(output@),
        ensures
            r@.map_values(|s: String| s@) == porcelain_files(lines(output@)),
    {
        let ls = lines_vec(&chars_of(output));
        let ghost lv = lines(output@);
        let mut r: Vec<String> = Vec::new();
        let mut i: usize = 0;
        while i < ls.len()
            invariant
                i <= ls@.len(),
                ls@.len() == lv.len(),
                lv == lines(output@),
                porcelain_ok(output@),
                forall|k: int| 0 <= k < ls@.len() ==> ls@[k]@ == lv[k],
                r@.map_values(|s: String| s@) == porcelain_files(lv.take(i as int)),
            decreases ls@.len() - i,
        {
            proof {
                assert(lv.take(i + 1).drop_last() == lv.take(i as int));
                assert(lv.take(i + 1).last() == lv[i as int]);
            }
            if ls[i].len() > 0 {
                assert(three_byte_prefix(lv[i as int]));
                let f = cut_three_bytes(&ls[i]);
                let ghost r0 = r@;
                r.push(string_of(&f));
                assert(r@.map_values(|s: String| s@) =~= r0.map_values(|s: String| s@).push(f@));
            }
            i += 1;
        }
        assert(lv.take(lv.len() as int) == lv);
        r
    }

    /// Arguments that pull with `--rebase`.
    pub fn pull_args(&self) -> (r: Vec<String>)
        ensures
            args_view(r@) == seq!["pull"@, "--rebase"@],
    {
        args2("pull", "--rebase")
    }

    /// Arguments that clone a remote repository to `dest`.
    pub fn clone_args(url: &str, dest: &str) -> (r: Vec<String>)
        ensures
            args_view(r@) == seq!["clone"@, url@, dest@],
    {
        args3("clone", url, dest)
    }
}

/// A `git@`, `https://`, `http://`, `ssh://` or `git://` address, or one
/// ending in `.git`.
pub open spec fn is_git_url_spec(s: Seq<char>) -> bool {
    starts_with(s, "git@"@) || starts_with(s, "https://"@) || starts_with(s, "http://"@)
        || starts_with(s, "ssh://"@) || starts_with(s, "git://"@) || crate::text::ends_with(
        s,
        ".git"@,
    )
}

/// Whether `s` looks like a git remote rather than a local path.
pub fn is_git_url(s: &str) -> (r: bool)
    ensures
        r == is_git_url_spec(s@),
{
    let c = chars_of(s);
    crate::text::starts_with_exec(&c, &chars_of("git@")) || crate::text::starts_with_exec(
        &c,
        &chars_of("https://"),
    ) || crate::text::starts_with_exec(&c, &chars_of("http://")) || crate::text::starts_with_exec(
        &c,
        &chars_of("ssh://"),
    ) || crate::text::starts_with_exec(&c, &chars_of("git://")) || crate::text::ends_with_exec(
        &c,
        &chars_of(".git"),
    )
}

} // verus!
