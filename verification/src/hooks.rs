//! Lifecycle hooks: which hook commands are trusted, what the user is asked
//! before an untrusted one runs, and how a hook is labelled and run.
//!
//! A hook is identified by the BLAKE2s-256 hash of its command text; the
//! hashes the user chose to trust are kept one per line in a trust store.
//! Running the shell, prompting and writing the store are the caller's.

use vstd::prelude::*;

pub use crate::fingerprint::hex_encode;

use crate::config::Entry;
use crate::fingerprint::{blake2s256, hash_bytes, hex};
use crate::path::join_paths;
use crate::text::{
    ascii_lower, ascii_lower_vec, chars_of, is_ws, join_lines, lemma_lines_join, lemma_trim_noop,
    lines, lines_vec, push_str, same, same_str, seqs_of, string_of, trim, trim_vec,
};
use crate::ui::{paint, paint_spec, BOLD, CYAN, DIM, MAGENTA, YELLOW};

verus! {

/// An environment flag is set by `1` or `true` in any case.
pub open spec fn env_flag_spec(v: Option<Seq<char>>) -> bool {
    match v {
        Some(s) => s == "1"@ || ascii_lower(s) == "true"@,
        None => false,
    }
}

/// Whether an environment variable's value turns its flag on.
pub fn env_flag(v: Option<&str>) -> (r: bool)
    ensures
        r == env_flag_spec(match v {
            Some(s) => Some(s@),
            None => None,
        }),
{
    match v {
        Some(s) => {
            let c = chars_of(s);
            same_str(&c, "1") || same_str(&ascii_lower_vec(&c), "true")
        },
        None => false,
    }
}

/// The hash that identifies a hook command: the hex BLAKE2s-256 of its
/// UTF-8 text.
pub open spec fn hook_hash_spec(command: Seq<char>) -> Seq<char> {
    hex(blake2s256(vstd::utf8::encode_utf8(command)))
}

pub fn hook_hash(command: &str) -> (r: String)
    ensures
        r@ == hook_hash_spec(command@),
{
    hash_bytes(command.as_bytes())
}

/// The trusted hashes in a trust store's text: each line trimmed, blank
/// lines skipped, each hash once.
pub open spec fn trusted_from(ls: Seq<Seq<char>>) -> Seq<Seq<char>>
    decreases ls.len(),
{
    if ls.len() == 0 {
        Seq::empty()
    } else {
        let prev = trusted_from(ls.drop_last());
        let h = trim(ls.last());
        if h.len() == 0 || prev.contains(h) {
            prev
        } else {
            prev.push(h)
        }
    }
}

/// No hash occurs twice.
pub open spec fn distinct(s: Seq<Seq<char>>) -> bool {
    forall|i: int, j: int| 0 <= i < j < s.len() ==> s[i] != s[j]
}

pub open spec fn strings_view(v: Seq<String>) -> Seq<Seq<char>> {
    v.map_values(|s: String| s@)
}

fn contains_str(v: &Vec<String>, x: &[char]) -> (r: bool)
    ensures
        r == strings_view(v@).contains(x@),
{
    let ghost vs = strings_view(v@);
    let mut i: usize = 0;
    while i < v.len()
        invariant
            i <= v@.len(),
            vs == strings_view(v@),
            forall|k: int| 0 <= k < i ==> vs[k] != x@,
        decreases v@.len() - i,
    {
        if same(&chars_of(v[i].as_str()), x) {
            assert(vs[i as int] == x@);
            return true;
        }
        i += 1;
    }
    false
}

/// Tracks trust state and manages lifecycle hook execution during a
/// session.
pub struct HookSession {
    trusted_hashes: Vec<String>,
    trust_store_path: String,
    allow_hooks: bool,
    no_hooks: bool,
    skip_all: bool,
}

/// What happens to a hook before it runs.
#[derive(Debug, Clone, Copy, PartialEq, Eq, Structural)]
pub enum HookVerdict {
    /// Run it.
    Run,
    /// Do not run it.
    Skip,
    /// Do not run it, and warn that an untrusted hook was skipped.
    SkipUntrusted,
    /// Ask the user.
    Ask,
}

/// What the caller does about one hook.
#[derive(Debug, Clone, Copy, PartialEq, Eq, Structural)]
pub enum HookPlan {
    /// Nothing: hooks are off, or this one is skipped.
    Nothing,
    /// Dry run: only say which hook would run.
    Describe,
    /// Run the command.
    Run,
    /// Do not run it; warn that an untrusted hook was skipped.
    Warn,
    /// Ask the user whether it may run.
    Ask,
}

/// An answer to the prompt for an untrusted hook.
#[derive(Debug, Clone, Copy, PartialEq, Eq, Structural)]
pub enum HookAnswer {
    /// Run it this once.
    Once,
    /// Skip it.
    Skip,
    /// Trust it from now on, and run it.
    Always,
    /// Skip it and every other hook of this session.
    SkipAll,
}

/// The answer typed at the hook prompt; `None` when it is not understood.
pub open spec fn hook_answer_spec(input: Seq<char>) -> Option<HookAnswer> {
    let a = ascii_lower(trim(input));
    if a == "y"@ || a == "yes"@ {
        Some(HookAnswer::Once)
    } else if a == "n"@ || a == "no"@ {
        Some(HookAnswer::Skip)
    } else if a == "a"@ || a == "always"@ {
        Some(HookAnswer::Always)
    } else if a == "s"@ || a == "skip-all"@ || a == "skipall"@ {
        Some(HookAnswer::SkipAll)
    } else {
        None
    }
}

pub fn parse_hook_answer(input: &str) -> (r: Option<HookAnswer>)
    ensures
        r == hook_answer_spec(input@),
{
    let a = ascii_lower_vec(&trim_vec(&chars_of(input)));
    if same_str(&a, "y") || same_str(&a, "yes") {
        Some(HookAnswer::Once)
    } else if same_str(&a, "n") || same_str(&a, "no") {
        Some(HookAnswer::Skip)
    } else if same_str(&a, "a") || same_str(&a, "always") {
        Some(HookAnswer::Always)
    } else if same_str(&a, "s") || same_str(&a, "skip-all") || same_str(&a, "skipall") {
        Some(HookAnswer::SkipAll)
    } else {
        None
    }
}

/// The trust store's text for some hashes: one per line.
pub open spec fn store_text(hs: Seq<Seq<char>>) -> Seq<char>
    decreases hs.len(),
{
    if hs.len() == 0 {
        Seq::empty()
    } else {
        store_text(hs.drop_last()) + hs.last() + seq!['\n']
    }
}

proof fn lemma_store_text_join(hs: Seq<Seq<char>>)
    ensures
        store_text(hs) == join_lines(hs),
    decreases hs.len(),
{
    if hs.len() > 0 {
        lemma_store_text_join(hs.drop_last());
    }
}

/// Hashes that are distinct, non-empty and hold no whitespace are kept as
/// they are when read back.
proof fn lemma_trusted_from_plain(hs: Seq<Seq<char>>)
    requires
        distinct(hs),
        forall|i: int| 0 <= i < hs.len() ==> #[trigger] hs[i].len() > 0,
        forall|i: int, k: int| 0 <= i < hs.len() && 0 <= k < hs[i].len() ==> !is_ws(#[trigger] hs[i][k]),
    ensures
        trusted_from(hs) == hs,
    decreases hs.len(),
{
    if hs.len() > 0 {
        let p = hs.drop_last();
        let h = hs.last();
        assert forall|i: int, k: int| 0 <= i < p.len() && 0 <= k < p[i].len() implies !is_ws(
            #[trigger] p[i][k],
        ) by {
            assert(p[i] == hs[i]);
        }
        assert forall|i: int| 0 <= i < p.len() implies #[trigger] p[i].len() > 0 by {
            assert(p[i] == hs[i]);
        }
        lemma_trusted_from_plain(p);
        assert(h == hs[hs.len() - 1]);
        assert(h.len() > 0);
        assert(!is_ws(h[0]) && !is_ws(h[h.len() - 1]));
        lemma_trim_noop(h);
        assert(!p.contains(h)) by {
            if p.contains(h) {
                let j = choose|j: int| 0 <= j < p.len() && p[j] == h;
                assert(hs[j] == hs[hs.len() - 1]);
            }
        }
        assert(p.push(h) == hs);
    }
}

/// The trust store written for some hashes reads back as the same hashes:
/// a hook trusted with "always" is trusted again in every later session
/// that loads the store.
pub proof fn law_trust_store_roundtrip(hs: Seq<Seq<char>>)
    requires
        distinct(hs),
        forall|i: int| 0 <= i < hs.len() ==> #[trigger] hs[i].len() > 0,
        forall|i: int, k: int| 0 <= i < hs.len() && 0 <= k < hs[i].len() ==> !is_ws(#[trigger] hs[i][k]),
    ensures
        trusted_from(lines(store_text(hs))) == hs,
{
    lemma_store_text_join(hs);
    assert forall|i: int, k: int| 0 <= i < hs.len() && 0 <= k < hs[i].len() implies hs[i][k]
        != '\n' by {
        assert(!is_ws(hs[i][k]));
    }
    assert forall|i: int| 0 <= i < hs.len() implies hs[i].len() == 0 || hs[i].last() != '\r' by {
        if hs[i].len() > 0 {
            assert(!is_ws(hs[i][hs[i].len() - 1]));
        }
    }
    lemma_lines_join(hs);
    lemma_trusted_from_plain(hs);
}

/// A hook's label in messages.
pub open spec fn hook_label_spec(entry_source: Option<Seq<char>>, hook_type: Seq<char>) -> Seq<char> {
    match entry_source {
        Some(s) => "entry '"@ + s + "' "@ + hook_type,
        None => "global "@ + hook_type,
    }
}

pub fn hook_label(entry: Option<&Entry>, hook_type: &str) -> (r: String)
    ensures
        r@ == hook_label_spec(
            match entry {
                Some(e) => Some(e@.source),
                None => None,
            },
            hook_type@,
        ),
{
    let mut v: Vec<char> = Vec::new();
    match entry {
        Some(e) => {
            push_str(&mut v, "entry '");
            push_str(&mut v, e.source.as_str());
            push_str(&mut v, "' ");
            push_str(&mut v, hook_type);
        },
        None => {
            push_str(&mut v, "global ");
            push_str(&mut v, hook_type);
        },
    }
    string_of(&v)
}

/// The variables a hook runs with.
pub open spec fn hook_env_spec(
    hook_type: Seq<char>,
    repo_root: Seq<char>,
    dry_run: bool,
    entry: Option<(Seq<char>, Seq<char>)>,
    action: Option<Seq<char>>,
) -> Seq<(Seq<char>, Seq<char>)> {
    let base = seq![
        ("DOTLING_HOOK_TYPE"@, hook_type),
        ("DOTLING_REPO_ROOT"@, repo_root),
        ("DOTLING_DRY_RUN"@, if dry_run { "true"@ } else { "false"@ }),
    ];
    match entry {
        None => base,
        Some((src, tgt)) => {
            let with_entry = base + seq![("DOTLING_ENTRY_SOURCE"@, src), ("DOTLING_ENTRY_TARGET"@, tgt)];
            match action {
                Some(a) => with_entry.push(("DOTLING_ENTRY_ACTION"@, a)),
                None => with_entry,
            }
        },
    }
}

pub open spec fn pairs_of(v: Seq<(String, String)>) -> Seq<(Seq<char>, Seq<char>)> {
    v.map_values(|p: (String, String)| (p.0@, p.1@))
}

/// The environment variables a hook runs with.
pub fn hook_env(
    hook_type: &str,
    repo_root: &str,
    dry_run: bool,
    entry: Option<&Entry>,
    action: Option<&str>,
) -> (r: Vec<(String, String)>)
    ensures
        pairs_of(r@) == hook_env_spec(
            hook_type@,
            repo_root@,
            dry_run,
            match entry {
                Some(e) => Some((e@.source, e@.target)),
                None => None,
            },
            match action {
                Some(a) => Some(a@),
                None => None,
            },
        ),
{
    let mut v: Vec<(String, String)> = Vec::new();
    v.push(("DOTLING_HOOK_TYPE".to_string(), hook_type.to_string()));
    v.push(("DOTLING_REPO_ROOT".to_string(), repo_root.to_string()));
    v.push(
        (
            "DOTLING_DRY_RUN".to_string(),
            if dry_run {
                "true".to_string()
            } else {
                "false".to_string()
            },
        ),
    );
    match entry {
        Some(e) => {
            v.push(("DOTLING_ENTRY_SOURCE".to_string(), e.source.clone()));
            v.push(("DOTLING_ENTRY_TARGET".to_string(), e.target.clone()));
            match action {
                Some(a) => {
                    v.push(("DOTLING_ENTRY_ACTION".to_string(), a.to_string()));
                },
                None => {},
            }
        },
        None => {},
    }
    assert(pairs_of(v@) =~= hook_env_spec(
        hook_type@,
        repo_root@,
        dry_run,
        match entry {
            Some(e) => Some((e@.source, e@.target)),
            None => None,
        },
        match action {
            Some(a) => Some(a@),
            None => None,
        },
    ));
    v
}

impl HookSession {
    pub closed spec fn trusted(&self) -> Seq<Seq<char>> {
        strings_view(self.trusted_hashes@)
    }

    pub closed spec fn store_path(&self) -> Seq<char> {
        self.trust_store_path@
    }

    pub closed spec fn allows_all(&self) -> bool {
        self.allow_hooks
    }

    pub closed spec fn disabled(&self) -> bool {
        self.no_hooks
    }

    pub closed spec fn skipping_all(&self) -> bool {
        self.skip_all
    }

    /// Create a hook session from the command-line flags, the values of
    /// `DOTLING_ALLOW_HOOKS` and `DOTLING_NO_HOOKS`, the state directory (if
    /// known) and the text of the trust store (if it exists).
    pub fn new(
        allow_hooks: bool,
        no_hooks: bool,
        allow_env: Option<&str>,
        no_env: Option<&str>,
        state_dir: Option<&str>,
        store: Option<&str>,
    ) -> (r: HookSession)
        ensures
            r.allows_all() == (allow_hooks || env_flag_spec(match allow_env {
                Some(s) => Some(s@),
                None => None,
            })),
            r.disabled() == (no_hooks || env_flag_spec(match no_env {
                Some(s) => Some(s@),
                None => None,
            })),
            !r.skipping_all(),
            r.store_path() == match state_dir {
                Some(d) => crate::path::join(d@, "trusted_hooks"@),
                None => ".dotling_trusted_hooks"@,
            },
            r.trusted() == match store {
                Some(c) => trusted_from(lines(c@)),
                None => Seq::<Seq<char>>::empty(),
            },
            distinct(r.trusted()),
    {
        let allow = allow_hooks || env_flag(allow_env);
        let no = no_hooks || env_flag(no_env);
        let path = match state_dir {
            Some(d) => join_paths(d, "trusted_hooks"),
            None => ".dotling_trusted_hooks".to_string(),
        };
        let trusted = match store {
            Some(c) => parse_trust_store(c),
            None => Vec::new(),
        };
        assert(strings_view(trusted@) =~= match store {
            Some(c) => trusted_from(lines(c@)),
            None => Seq::<Seq<char>>::empty(),
        });
        HookSession {
            trusted_hashes: trusted,
            trust_store_path: path,
            allow_hooks: allow,
            no_hooks: no,
            skip_all: false,
        }
    }

    /// The path of the trust store.
    pub fn trust_store_path(&self) -> (r: &str)
        ensures
            r@ == self.store_path(),
    {
        self.trust_store_path.as_str()
    }

    /// Whether a hash is trusted.
    pub fn is_trusted(&self, hash: &str) -> (r: bool)
        ensures
            r == self.trusted().contains(hash@),
    {
        contains_str(&self.trusted_hashes, &chars_of(hash))
    }

    /// Trust a hook's hash; returns the trust store's new text.
    pub fn trust_hook(&mut self, hash: &str) -> (r: String)
        requires
            distinct(old(self).trusted()),
        ensures
            final(self).trusted() == (if old(self).trusted().contains(hash@) {
                old(self).trusted()
            } else {
                old(self).trusted().push(hash@)
            }),
            distinct(final(self).trusted()),
            r@ == store_text(final(self).trusted()),
            final(self).store_path() == old(self).store_path(),
            final(self).allows_all() == old(self).allows_all(),
            final(self).disabled() == old(self).disabled(),
            final(self).skipping_all() == old(self).skipping_all(),
    {
        let ghost t0 = self.trusted();
        if !contains_str(&self.trusted_hashes, &chars_of(hash)) {
            self.trusted_hashes.push(hash.to_string());
            assert(self.trusted() =~= t0.push(hash@));
        }
        let ghost t = self.trusted();
        let mut v: Vec<char> = Vec::new();
        let mut i: usize = 0;
        while i < self.trusted_hashes.len()
            invariant
                i <= self.trusted_hashes@.len(),
                t == strings_view(self.trusted_hashes@),
                v@ == store_text(t.take(i as int)),
            decreases self.trusted_hashes@.len() - i,
        {
            push_str(&mut v, self.trusted_hashes[i].as_str());
            v.push('\n');
            proof {
                assert(t.take(i + 1).drop_last() == t.take(i as int));
                assert(t.take(i + 1).last() == t[i as int]);
            }
            i += 1;
        }
        assert(t.take(t.len() as int) == t);
        string_of(&v)
    }

    /// What happens to a hook with this command before it runs: nothing
    /// when hooks are off or skipped, a run when all hooks are allowed or the
    /// command is trusted, a warning without a terminal, else a question.
    pub fn verdict(&self, command: &str, no_interactive: bool) -> (r: HookVerdict)
        ensures
            r == (if self.disabled() || self.skipping_all() {
                HookVerdict::Skip
            } else if self.allows_all() || self.trusted().contains(hook_hash_spec(command@)) {
                HookVerdict::Run
            } else if no_interactive {
                HookVerdict::SkipUntrusted
            } else {
                HookVerdict::Ask
            }),
    {
        if self.no_hooks || self.skip_all {
            return HookVerdict::Skip;
        }
        let hash = hook_hash(command);
        if self.allow_hooks || self.is_trusted(hash.as_str()) {
            return HookVerdict::Run;
        }
        if no_interactive {
            HookVerdict::SkipUntrusted
        } else {
            HookVerdict::Ask
        }
    }

    pub closed spec fn verdict_spec(&self, command: Seq<char>, no_interactive: bool) -> HookVerdict {
        if self.disabled() || self.skipping_all() {
            HookVerdict::Skip
        } else if self.allows_all() || self.trusted().contains(hook_hash_spec(command)) {
            HookVerdict::Run
        } else if no_interactive {
            HookVerdict::SkipUntrusted
        } else {
            HookVerdict::Ask
        }
    }

    /// What becomes of a hook: nothing when hooks are off; in a dry run it is
    /// only described; otherwise as its verdict says.
    pub closed spec fn plan_spec(&self, command: Seq<char>, dry_run: bool, no_interactive: bool) -> HookPlan {
        if self.disabled() {
            HookPlan::Nothing
        } else if dry_run {
            HookPlan::Describe
        } else {
            match self.verdict_spec(command, no_interactive) {
                HookVerdict::Skip => HookPlan::Nothing,
                HookVerdict::Run => HookPlan::Run,
                HookVerdict::SkipUntrusted => HookPlan::Warn,
                HookVerdict::Ask => HookPlan::Ask,
            }
        }
    }

    /// What the caller does about a hook with this command. A dry run never
    /// runs a hook and never asks.
    pub fn plan(&self, command: &str, dry_run: bool, no_interactive: bool) -> (r: HookPlan)
        ensures
            r == self.plan_spec(command@, dry_run, no_interactive),
            dry_run ==> (r == HookPlan::Nothing || r == HookPlan::Describe),
            r == HookPlan::Run ==> !dry_run && !self.disabled() && !self.skipping_all() && (self.allows_all()
                || self.trusted().contains(hook_hash_spec(command@))),
    {
        if self.no_hooks {
            return HookPlan::Nothing;
        }
        if dry_run {
            return HookPlan::Describe;
        }
        match self.verdict(command, no_interactive) {
            HookVerdict::Skip => HookPlan::Nothing,
            HookVerdict::Run => HookPlan::Run,
            HookVerdict::SkipUntrusted => HookPlan::Warn,
            HookVerdict::Ask => HookPlan::Ask,
        }
    }

    /// Apply the user's answer for an untrusted hook; whether it runs, and
    /// the trust store's new text when the hook became trusted.
    pub fn answer(&mut self, command: &str, answer: HookAnswer) -> (r: (bool, Option<String>))
        requires
            distinct(old(self).trusted()),
        ensures
            r.0 == (answer == HookAnswer::Once || answer == HookAnswer::Always),
            answer == HookAnswer::Always ==> (r.1 matches Some(t) && final(self).trusted() == (if old(
                self,
            ).trusted().contains(hook_hash_spec(command@)) {
                old(self).trusted()
            } else {
                old(self).trusted().push(hook_hash_spec(command@))
            }) && t@ == store_text(final(self).trusted())),
            answer != HookAnswer::Always ==> r.1 is None && final(self).trusted() == old(self).trusted(),
            final(self).skipping_all() == (old(self).skipping_all() || answer == HookAnswer::SkipAll),
            distinct(final(self).trusted()),
            final(self).allows_all() == old(self).allows_all(),
            final(self).disabled() == old(self).disabled(),
            final(self).store_path() == old(self).store_path(),
    {
        match answer {
            HookAnswer::Once => (true, None),
            HookAnswer::Skip => (false, None),
            HookAnswer::Always => {
                let hash = hook_hash(command);
                let t = self.trust_hook(hash.as_str());
                (true, Some(t))
            },
            HookAnswer::SkipAll => {
                self.skip_all = true;
                (false, None)
            },
        }
    }

    /// Whether hooks are disabled for this session.
    pub fn hooks_disabled(&self) -> (r: bool)
        ensures
            r == self.disabled(),
    {
        self.no_hooks
    }
}

/// The trusted hashes in a trust store's text.
pub fn parse_trust_store(content: &str) -> (r: Vec<String>)
    ensures
        strings_view(r@) == trusted_from(lines(content@)),
        distinct(strings_view(r@)),
{
    let ls = lines_vec(&chars_of(content));
    let ghost lv = lines(content@);
    let mut r: Vec<String> = Vec::new();
    let mut i: usize = 0;
    while i < ls.len()
        invariant
            i <= ls@.len(),
            ls@.len() == lv.len(),
            forall|k: int| 0 <= k < ls@.len() ==> ls@[k]@ == lv[k],
            strings_view(r@) == trusted_from(lv.take(i as int)),
            distinct(strings_view(r@)),
        decreases ls@.len() - i,
    {
        let h = trim_vec(&ls[i]);
        proof {
            assert(lv.take(i + 1).drop_last() == lv.take(i as int));
            assert(lv.take(i + 1).last() == lv[i as int]);
        }
        if h.len() > 0 && !contains_str(&r, &h) {
            let ghost r0 = strings_view(r@);
            r.push(string_of(&h));
            assert(strings_view(r@) =~= r0.push(h@));
        }
        i += 1;
    }
    assert(lv.take(lv.len() as int) == lv);
    r
}

/// The warning for an untrusted hook skipped without a terminal.
pub open spec fn untrusted_warning_spec(hook_type: Seq<char>, command: Seq<char>) -> Seq<char> {
    "Skipping untrusted "@ + hook_type + " hook (non-interactive): '"@ + command + "'"@
}

pub fn untrusted_warning(hook_type: &str, command: &str) -> (r: String)
    ensures
        r@ == untrusted_warning_spec(hook_type@, command@),
{
    let mut v: Vec<char> = Vec::new();
    push_str(&mut v, "Skipping untrusted ");
    push_str(&mut v, hook_type);
    push_str(&mut v, " hook (non-interactive): '");
    push_str(&mut v, command);
    push_str(&mut v, "'");
    string_of(&v)
}

} // verus!
