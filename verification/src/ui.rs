//! Terminal presentation: colors, status symbols and badges, summary lines,
//! and the reading of answers typed at prompts.
//!
//! Whether colors are enabled (`NO_COLOR`, a terminal on stdout) is decided
//! by the caller and passed in.

use vstd::prelude::*;

use crate::text::{
    lines, lines_vec, same, seqs_of,
    ascii_lower, ascii_lower_vec, chars_of, decimal, decimal_vec, push_all, push_str, same_str,
    string_of, trim, trim_vec,
};

verus! {

pub const RESET: &'static str = "\x1b[0m";
pub const BOLD: &'static str = "\x1b[1m";
pub const DIM: &'static str = "\x1b[2m";
pub const RED: &'static str = "\x1b[31m";
pub const GREEN: &'static str = "\x1b[32m";
pub const YELLOW: &'static str = "\x1b[33m";
pub const BLUE: &'static str = "\x1b[34m";
pub const MAGENTA: &'static str = "\x1b[35m";
pub const CYAN: &'static str = "\x1b[36m";

/// `text` in `color` when colors are enabled.
pub open spec fn paint_spec(color: Seq<char>, text: Seq<char>, enabled: bool) -> Seq<char> {
    if enabled {
        color + text + RESET@
    } else {
        text
    }
}

/// Apply a color if colors are enabled.
pub fn paint(color: &str, text: &str, enabled: bool) -> (r: String)
    ensures
        r@ == paint_spec(color@, text@, enabled),
{
    if enabled {
        let mut v: Vec<char> = Vec::new();
        push_str(&mut v, color);
        push_str(&mut v, text);
        push_str(&mut v, RESET);
        assert(v@ =~= color@ + text@ + RESET@);
        string_of(&v)
    } else {
        text.to_string()
    }
}

// ── Status display ────────────────────────────────────────────────

/// Status indicator for an entry.
#[derive(Debug, Clone, Copy, PartialEq, Eq, Structural)]
pub enum Status {
    Good,
    Modified,
    Missing,
    Broken,
    Encrypted,
    Template,
    Conflict,
}

pub open spec fn status_symbol(s: Status) -> Seq<char> {
    match s {
        Status::Good => "✓"@,
        Status::Modified => "~"@,
        Status::Missing => "✗"@,
        Status::Broken => "!"@,
        Status::Encrypted => "🔒"@,
        Status::Template => "📄"@,
        Status::Conflict => "⚡"@,
    }
}

pub open spec fn status_color(s: Status) -> Seq<char> {
    match s {
        Status::Good | Status::Encrypted | Status::Template => GREEN@,
        Status::Modified => YELLOW@,
        Status::Missing | Status::Broken => RED@,
        Status::Conflict => MAGENTA@,
    }
}

impl Status {
    pub fn symbol(&self) -> (r: &'static str)
        ensures
            r@ == status_symbol(*self),
    {
        match self {
            Status::Good => "✓",
            Status::Modified => "~",
            Status::Missing => "✗",
            Status::Broken => "!",
            Status::Encrypted => "🔒",
            Status::Template => "📄",
            Status::Conflict => "⚡",
        }
    }

    pub fn color(&self) -> (r: &'static str)
        ensures
            r@ == status_color(*self),
    {
        match self {
            Status::Good | Status::Encrypted | Status::Template => GREEN,
            Status::Modified => YELLOW,
            Status::Missing | Status::Broken => RED,
            Status::Conflict => MAGENTA,
        }
    }
}

/// Sync and diff state badges shown alongside each status line.
#[derive(Debug, Clone, Copy, PartialEq, Eq, Structural)]
pub enum SyncBadge {
    /// Entry is fully in sync — no action needed.
    InSync,
    /// Entry needs to be synced (missing, broken, conflict, or symlink wrong).
    NeedsSync,
    /// Entry content differs between repo and actual (copy-mode modified).
    HasDiff,
}

pub open spec fn badge_text(b: SyncBadge, enabled: bool) -> Seq<char> {
    match b {
        SyncBadge::InSync => paint_spec(GREEN@, "[in sync]"@, enabled),
        SyncBadge::NeedsSync => paint_spec(YELLOW@, "[needs sync]"@, enabled),
        SyncBadge::HasDiff => paint_spec(YELLOW@, "[needs sync]"@, enabled) + " "@ + paint_spec(
            MAGENTA@,
            "[diff]"@,
            enabled,
        ),
    }
}

impl SyncBadge {
    pub fn render(self, enabled: bool) -> (r: String)
        ensures
            r@ == badge_text(self, enabled),
    {
        match self {
            SyncBadge::InSync => paint(GREEN, "[in sync]", enabled),
            SyncBadge::NeedsSync => paint(YELLOW, "[needs sync]", enabled),
            SyncBadge::HasDiff => {
                let a = paint(YELLOW, "[needs sync]", enabled);
                let b = paint(MAGENTA, "[diff]", enabled);
                let mut v: Vec<char> = Vec::new();
                push_str(&mut v, a.as_str());
                push_str(&mut v, " ");
                push_str(&mut v, b.as_str());
                assert(v@ =~= a@ + " "@ + b@);
                string_of(&v)
            },
        }
    }
}

/// The status line of an entry.
pub open spec fn status_line_spec(
    status: Status,
    source: Seq<char>,
    target: Seq<char>,
    badge: SyncBadge,
    enabled: bool,
) -> Seq<char> {
    "  "@ + paint_spec(status_color(status), status_symbol(status), enabled) + " "@ + paint_spec(
        CYAN@,
        source,
        enabled,
    ) + " "@ + paint_spec(DIM@, "→"@, enabled) + " "@ + target + "  "@ + badge_text(badge, enabled)
}

/// The status line for an entry, with its sync badge.
pub fn status_line(status: &Status, source: &str, target: &str, badge: SyncBadge, enabled: bool) -> (r: String)
    ensures
        r@ == status_line_spec(*status, source@, target@, badge, enabled),
{
    let sym = paint(status.color(), status.symbol(), enabled);
    let src = paint(CYAN, source, enabled);
    let arrow = paint(DIM, "→", enabled);
    let b = badge.render(enabled);
    let mut v: Vec<char> = Vec::new();
    push_str(&mut v, "  ");
    push_str(&mut v, sym.as_str());
    push_str(&mut v, " ");
    push_str(&mut v, src.as_str());
    push_str(&mut v, " ");
    push_str(&mut v, arrow.as_str());
    push_str(&mut v, " ");
    push_str(&mut v, target);
    push_str(&mut v, "  ");
    push_str(&mut v, b.as_str());
    assert(v@ =~= "  "@ + sym@ + " "@ + src@ + " "@ + arrow@ + " "@ + target@ + "  "@ + b@);
    string_of(&v)
}

// ── Summaries ─────────────────────────────────────────────────────

/// `n label`, with an `s` unless `n` is one.
pub open spec fn count_text(n: nat, label: Seq<char>) -> Seq<char> {
    decimal(n) + " "@ + label + (if n == 1 {
        Seq::<char>::empty()
    } else {
        "s"@
    })
}

/// The nonzero counts of a batch, painted.
pub open spec fn summary_parts(ok: nat, warnings: nat, errors: nat, enabled: bool) -> Seq<Seq<char>> {
    (if ok > 0 {
        seq![paint_spec(GREEN@, count_text(ok, "ok"@), enabled)]
    } else {
        Seq::empty()
    }) + (if warnings > 0 {
        seq![paint_spec(YELLOW@, count_text(warnings, "warning"@), enabled)]
    } else {
        Seq::empty()
    }) + (if errors > 0 {
        seq![paint_spec(RED@, count_text(errors, "error"@), enabled)]
    } else {
        Seq::empty()
    })
}

/// Parts joined with `, `.
pub open spec fn join_comma(parts: Seq<Seq<char>>) -> Seq<char>
    decreases parts.len(),
{
    if parts.len() == 0 {
        Seq::empty()
    } else if parts.len() == 1 {
        parts[0]
    } else {
        join_comma(parts.drop_last()) + ", "@ + parts.last()
    }
}

/// The summary line after a batch: the nonzero counts, or `nothing to do`.
pub open spec fn summary_spec(ok: nat, warnings: nat, errors: nat, enabled: bool) -> Seq<char> {
    let parts = summary_parts(ok, warnings, errors, enabled);
    if parts.len() == 0 {
        paint_spec(DIM@, "nothing to do"@, enabled)
    } else {
        join_comma(parts)
    }
}

fn count_part(n: usize, label: &str, color: &str, enabled: bool) -> (r: String)
    ensures
        r@ == paint_spec(color@, count_text(n as nat, label@), enabled),
{
    let mut v: Vec<char> = Vec::new();
    let d = decimal_vec(n);
    push_all(&mut v, &d);
    push_str(&mut v, " ");
    push_str(&mut v, label);
    if n != 1 {
        push_str(&mut v, "s");
    }
    proof {
        reveal_strlit("s");
        assert(v@ =~= count_text(n as nat, label@));
    }
    let t = string_of(&v);
    paint(color, t.as_str(), enabled)
}

/// The summary line printed after a batch operation.
pub fn summary(ok: usize, warnings: usize, errors: usize, enabled: bool) -> (r: String)
    ensures
        r@ == summary_spec(ok as nat, warnings as nat, errors as nat, enabled),
{
    let mut parts: Vec<String> = Vec::new();
    if ok > 0 {
        parts.push(count_part(ok, "ok", GREEN, enabled));
    }
    if warnings > 0 {
        parts.push(count_part(warnings, "warning", YELLOW, enabled));
    }
    if errors > 0 {
        parts.push(count_part(errors, "error", RED, enabled));
    }
    let ghost ps = summary_parts(ok as nat, warnings as nat, errors as nat, enabled);
    assert(parts@.len() == ps.len() && forall|k: int| 0 <= k < ps.len() ==> parts@[k]@ == ps[k]);
    if parts.len() == 0 {
        return paint(DIM, "nothing to do", enabled);
    }
    let mut v: Vec<char> = Vec::new();
    push_str(&mut v, parts[0].as_str());
    let mut i: usize = 1;
    assert(ps.take(1).len() == 1);
    while i < parts.len()
        invariant
            1 <= i <= parts@.len(),
            parts@.len() == ps.len(),
            forall|k: int| 0 <= k < ps.len() ==> parts@[k]@ == ps[k],
            v@ == join_comma(ps.take(i as int)),
        decreases parts@.len() - i,
    {
        push_str(&mut v, ", ");
        push_str(&mut v, parts[i].as_str());
        proof {
            assert(ps.take(i + 1).drop_last() == ps.take(i as int));
            assert(ps.take(i + 1).last() == ps[i as int]);
        }
        i += 1;
    }
    assert(ps.take(ps.len() as int) == ps);
    string_of(&v)
}

// ── Interactive answers ───────────────────────────────────────────

/// `y` or `yes`, in any case, around spaces.
pub open spec fn is_yes_spec(input: Seq<char>) -> bool {
    let a = ascii_lower(trim(input));
    a == "y"@ || a == "yes"@
}

/// Whether an answer to a yes/no question is yes.
pub fn is_yes(input: &str) -> (r: bool)
    ensures
        r == is_yes_spec(input@),
{
    let a = ascii_lower_vec(&trim_vec(&chars_of(input)));
    same_str(&a, "y") || same_str(&a, "yes")
}

/// The user's response to a conflict resolution prompt.
#[derive(Debug, Clone, Copy, PartialEq, Eq, Structural)]
pub enum ConflictChoice {
    /// Keep the local (actual) file — pull it into the repo.
    KeepLocal,
    /// Use the repo version — push to actual (local file will be backed up).
    UseRepo,
    /// Attempt an automatic 3-way merge (only for plain-text files).
    Merge,
    /// Skip this entry for now; leave both sides unchanged.
    Skip,
    /// Show a diff between repo and actual before deciding.
    ShowDiff,
}

/// The choice an answer to the conflict prompt names; `None` for an answer
/// that is not understood (the prompt is asked again). `s` shows the diff,
/// an empty answer skips, and `m` counts only where a merge is offered.
pub open spec fn conflict_choice_spec(input: Seq<char>, supports_merge: bool) -> Option<ConflictChoice> {
    let a = ascii_lower(trim(input));
    if a == "k"@ || a == "keep"@ || a == "keep-local"@ || a == "keeplocal"@ {
        Some(ConflictChoice::KeepLocal)
    } else if a == "r"@ || a == "repo"@ {
        Some(ConflictChoice::UseRepo)
    } else if (a == "m"@ || a == "merge"@) && supports_merge {
        Some(ConflictChoice::Merge)
    } else if a == "s"@ || a == "d"@ || a == "diff"@ {
        Some(ConflictChoice::ShowDiff)
    } else if a == "skip"@ || a.len() == 0 {
        Some(ConflictChoice::Skip)
    } else {
        None
    }
}

/// Read an answer to the conflict prompt.
pub fn parse_conflict_choice(input: &str, supports_merge: bool) -> (r: Option<ConflictChoice>)
    ensures
        r == conflict_choice_spec(input@, supports_merge),
{
    let a = ascii_lower_vec(&trim_vec(&chars_of(input)));
    if same_str(&a, "k") || same_str(&a, "keep") || same_str(&a, "keep-local") || same_str(
        &a,
        "keeplocal",
    ) {
        Some(ConflictChoice::KeepLocal)
    } else if same_str(&a, "r") || same_str(&a, "repo") {
        Some(ConflictChoice::UseRepo)
    } else if (same_str(&a, "m") || same_str(&a, "merge")) && supports_merge {
        Some(ConflictChoice::Merge)
    } else if same_str(&a, "s") || same_str(&a, "d") || same_str(&a, "diff") {
        Some(ConflictChoice::ShowDiff)
    } else if same_str(&a, "skip") || a.len() == 0 {
        Some(ConflictChoice::Skip)
    } else {
        None
    }
}

/// The conflict prompt's text.
pub open spec fn conflict_prompt_spec(supports_merge: bool, enabled: bool) -> Seq<char> {
    "    "@ + paint_spec(YELLOW@, "?"@, enabled) + " [k]eep local  [r]epo"@ + (if supports_merge {
        " [m]erge"@
    } else {
        Seq::<char>::empty()
    }) + "  [s] diff  (Enter: skip) > "@
}

/// The text of the conflict prompt.
pub fn conflict_prompt_text(supports_merge: bool, enabled: bool) -> (r: String)
    ensures
        r@ == conflict_prompt_spec(supports_merge, enabled),
{
    let q = paint(YELLOW, "?", enabled);
    let mut v: Vec<char> = Vec::new();
    push_str(&mut v, "    ");
    push_str(&mut v, q.as_str());
    push_str(&mut v, " [k]eep local  [r]epo");
    if supports_merge {
        push_str(&mut v, " [m]erge");
    }
    push_str(&mut v, "  [s] diff  (Enter: skip) > ");
    assert(v@ =~= conflict_prompt_spec(supports_merge, enabled));
    string_of(&v)
}

// ── Messages for the user ─────────────────────────────────────────

/// How a message to the user is shown.
#[derive(Debug, Clone, Copy, PartialEq, Eq, Structural)]
pub enum NoticeKind {
    Info,
    Success,
    Warning,
    Hint,
    Header,
    Error,
}

/// A message to the user, which the caller shows in its kind's style.
#[derive(Debug, Clone)]
pub struct Notice {
    pub kind: NoticeKind,
    pub text: String,
}

/// The messages, each as its kind and text.
pub open spec fn notices_view(v: Seq<Notice>) -> Seq<(NoticeKind, Seq<char>)> {
    v.map_values(|n: Notice| (n.kind, n.text@))
}

pub fn notice(kind: NoticeKind, text: &str) -> (r: Notice)
    ensures
        r.kind == kind,
        r.text@ == text@,
{
    Notice { kind, text: text.to_string() }
}

// ── Side-by-side line diff ────────────────────────────────────────

/// The lines at position `i` of two texts, compared position by position.
pub open spec fn diff_row(a: Seq<Seq<char>>, b: Seq<Seq<char>>, i: int, enabled: bool) -> Seq<Seq<char>> {
    if i < a.len() && i < b.len() {
        if a[i] == b[i] {
            seq![" "@ + a[i]]
        } else {
            seq![paint_spec(RED@, "-"@ + a[i], enabled), paint_spec(GREEN@, "+"@ + b[i], enabled)]
        }
    } else if i < a.len() {
        seq![paint_spec(RED@, "-"@ + a[i], enabled)]
    } else if i < b.len() {
        seq![paint_spec(GREEN@, "+"@ + b[i], enabled)]
    } else {
        Seq::empty()
    }
}

pub open spec fn diff_rows(a: Seq<Seq<char>>, b: Seq<Seq<char>>, k: int, enabled: bool) -> Seq<Seq<char>>
    decreases k,
{
    if k <= 0 {
        Seq::empty()
    } else {
        diff_rows(a, b, k - 1, enabled) + diff_row(a, b, k - 1, enabled)
    }
}

/// The lines of a quick diff of two texts: the labels, then each line
/// position compared (no alignment of moved lines).
pub open spec fn print_diff_spec(
    source_label: Seq<char>,
    target_label: Seq<char>,
    source: Seq<char>,
    target: Seq<char>,
    enabled: bool,
) -> Seq<Seq<char>> {
    let a = lines(source);
    let b = lines(target);
    let max = if a.len() >= b.len() {
        a.len()
    } else {
        b.len()
    };
    seq![
        paint_spec(RED@, "---"@, enabled) + " "@ + source_label,
        paint_spec(GREEN@, "+++"@, enabled) + " "@ + target_label,
    ] + diff_rows(a, b, max as int, enabled)
}

fn prefixed(p: &str, line: &[char]) -> (r: String)
    ensures
        r@ == p@ + line@,
{
    let mut v: Vec<char> = Vec::new();
    push_str(&mut v, p);
    push_all(&mut v, line);
    string_of(&v)
}

/// The lines of a quick diff of `source` against `target`, for the caller
/// to print.
pub fn print_diff(source_label: &str, target_label: &str, source: &str, target: &str, enabled: bool) -> (r: Vec<
    String,
>)
    ensures
        r@.map_values(|s: String| s@) == print_diff_spec(source_label@, target_label@, source@, target@, enabled),
{
    let a = lines_vec(&chars_of(source));
    let b = lines_vec(&chars_of(target));
    let ghost av = seqs_of(a@);
    let ghost bv = seqs_of(b@);
    let minus = paint(RED, "---", enabled);
    let plus = paint(GREEN, "+++", enabled);
    let l1 = cat_space(minus.as_str(), source_label);
    let l2 = cat_space(plus.as_str(), target_label);
    let mut out: Vec<String> = vec![l1, l2];
    let ghost head = out@.map_values(|s: String| s@);
    let max = if a.len() >= b.len() {
        a.len()
    } else {
        b.len()
    };
    let mut i: usize = 0;
    while i < max
        invariant
            i <= max,
            max == (if a@.len() >= b@.len() {
                a@.len()
            } else {
                b@.len()
            }),
            av == seqs_of(a@),
            bv == seqs_of(b@),
            out@.map_values(|s: String| s@) == head + diff_rows(av, bv, i as int, enabled),
        decreases max - i,
    {
        let ghost before = out@;
        if i < a.len() && i < b.len() {
            proof {
                assert(av[i as int] == a@[i as int]@);
                assert(bv[i as int] == b@[i as int]@);
            }
            if same(&a[i], &b[i]) {
                out.push(prefixed(" ", &a[i]));
            } else {
                let m = prefixed("-", &a[i]);
                let p = prefixed("+", &b[i]);
                out.push(paint(RED, m.as_str(), enabled));
                out.push(paint(GREEN, p.as_str(), enabled));
            }
        } else if i < a.len() {
            proof {
                assert(av[i as int] == a@[i as int]@);
            }
            let m = prefixed("-", &a[i]);
            out.push(paint(RED, m.as_str(), enabled));
        } else {
            proof {
                assert(bv[i as int] == b@[i as int]@);
            }
            let p = prefixed("+", &b[i]);
            out.push(paint(GREEN, p.as_str(), enabled));
        }
        assert(out@.map_values(|s: String| s@) =~= before.map_values(|s: String| s@) + diff_row(
            av,
            bv,
            i as int,
            enabled,
        ));
        i += 1;
    }
    out
}

fn cat_space(a: &str, b: &str) -> (r: String)
    ensures
        r@ == a@ + " "@ + b@,
{
    let mut v: Vec<char> = Vec::new();
    push_str(&mut v, a);
    push_str(&mut v, " ");
    push_str(&mut v, b);
    string_of(&v)
}

} // verus!
