//! The `dotling.toml` configuration: its data model, a parser for the TOML
//! subset it is written in, and the serializer that writes it back.

use vstd::prelude::*;

use crate::error::Error;
use crate::path::{
    collect, collect_vec, extension_vec, join, parts_of, parts_vec, path_extension, push_path_vec, resolve,
    resolve_spec,
};
use crate::text::{
    copy_vec, str_eq, decimal, lemma_escape_free, lemma_escape_no_newline, lemma_escape_plain,
    lemma_kv_bare, lemma_kv_quoted, lemma_kv_raw, lemma_lines_join, is_ws, before_char, index_of,
    lemma_index_of_at, lemma_index_of_none, lemma_trim_noop, digit_char, escape, escape_vec, join_lines, lemma_join_lines_append,
    ascii_lower, ascii_lower_vec, chars_of, clean_line, clean_line_vec, ends_with,
    ends_with_exec, eq_ignore_ascii_case, kv_is_lone_quote, kv_of, kv_vec, lines, lines_vec,
    push_all, push_str, same, same_str, seqs_of, slice_to_vec, split_once, split_once_vec,
    starts_with, starts_with_exec, string_of, trim, trim_vec, is_lone_quote,
};

verus! {

// ── Data model ────────────────────────────────────────────────────

/// How an entry is deployed to the filesystem.
#[derive(Debug, Clone, Copy, PartialEq, Eq, Structural)]
pub enum DeployMethod {
    Symlink,
    Copy,
}

pub open spec fn method_name(m: DeployMethod) -> Seq<char> {
    match m {
        DeployMethod::Symlink => "symlink"@,
        DeployMethod::Copy => "copy"@,
    }
}

/// A deploy method named case-insensitively.
pub open spec fn parse_method(s: Seq<char>) -> Option<DeployMethod> {
    if ascii_lower(s) == "symlink"@ {
        Some(DeployMethod::Symlink)
    } else if ascii_lower(s) == "copy"@ {
        Some(DeployMethod::Copy)
    } else {
        None
    }
}

impl DeployMethod {
    pub fn as_str(self) -> (r: &'static str)
        ensures
            r@ == method_name(self),
    {
        match self {
            DeployMethod::Symlink => "symlink",
            DeployMethod::Copy => "copy",
        }
    }

    /// Parses a method name, ignoring ASCII case.
    pub fn parse(s: &[char]) -> (r: Option<DeployMethod>)
        ensures
            r == parse_method(s@),
    {
        let l = ascii_lower_vec(s);
        if same_str(&l, "symlink") {
            Some(DeployMethod::Symlink)
        } else if same_str(&l, "copy") {
            Some(DeployMethod::Copy)
        } else {
            None
        }
    }
}

/// A single tracked dotfile entry.
#[derive(Debug, Clone)]
pub struct Entry {
    /// Repo-relative source path (e.g., `shell/zshrc`).
    pub source: String,
    /// Deploy target path (e.g., `~/.zshrc`).
    pub target: String,
    /// Deploy method override (uses repo default if `None`).
    pub method: Option<DeployMethod>,
    /// Whether this entry is encrypted.
    pub encrypted: bool,
    /// Whether this is a directory entry.
    pub directory: bool,
    /// Whether this is a template entry (source ends with `.dtmpl`).
    /// Inferred from `source` at parse time — not stored in TOML.
    pub template: bool,
    /// OS restriction (e.g., `"linux"`, `"macos"`). `None` means all.
    pub os: Option<String>,
    /// File permissions as an octal u32 (e.g. 0o600).
    pub permissions: Option<u32>,
    /// Command to run before syncing this entry.
    pub before: Option<String>,
    /// Command to run after syncing this entry.
    pub after: Option<String>,
}

/// The text of an optional string.
pub open spec fn opt_view(o: Option<String>) -> Option<Seq<char>> {
    match o {
        Some(s) => Some(s@),
        None => None,
    }
}

pub struct EntryView {
    pub source: Seq<char>,
    pub target: Seq<char>,
    pub method: Option<DeployMethod>,
    pub encrypted: bool,
    pub directory: bool,
    pub template: bool,
    pub os: Option<Seq<char>>,
    pub permissions: Option<u32>,
    pub before: Option<Seq<char>>,
    pub after: Option<Seq<char>>,
}

impl View for Entry {
    type V = EntryView;

    open spec fn view(&self) -> EntryView {
        EntryView {
            source: self.source@,
            target: self.target@,
            method: self.method,
            encrypted: self.encrypted,
            directory: self.directory,
            template: self.template,
            os: opt_view(self.os),
            permissions: self.permissions,
            before: opt_view(self.before),
            after: opt_view(self.after),
        }
    }
}

/// Repo-level settings.
#[derive(Debug, Clone)]
pub struct Settings {
    /// Default deploy method for entries without an explicit override.
    pub method: DeployMethod,
}

impl Settings {
    /// The default settings: symlinks.
    pub fn default_settings() -> (r: Settings)
        ensures
            r.method == DeployMethod::Symlink,
    {
        Settings { method: DeployMethod::Symlink }
    }
}

/// Global lifecycle hooks.
#[derive(Debug, Clone)]
pub struct Hooks {
    pub init: Option<String>,
    pub before: Option<String>,
    pub after: Option<String>,
}

pub struct HooksView {
    pub init: Option<Seq<char>>,
    pub before: Option<Seq<char>>,
    pub after: Option<Seq<char>>,
}

impl View for Hooks {
    type V = HooksView;

    open spec fn view(&self) -> HooksView {
        HooksView { init: opt_view(self.init), before: opt_view(self.before), after: opt_view(self.after) }
    }
}

impl Hooks {
    /// No hooks.
    pub fn none() -> (r: Hooks)
        ensures
            r@ == (HooksView { init: None, before: None, after: None }),
    {
        Hooks { init: None, before: None, after: None }
    }
}

/// The top-level configuration stored in `dotling.toml`.
#[derive(Debug, Clone)]
pub struct Config {
    pub settings: Settings,
    pub entries: Vec<Entry>,
    pub hooks: Hooks,
    /// Shared variable defaults from `[vars]` (committed to git).
    /// Machine-local overrides live in `~/.dotling/vars.toml`.
    pub vars: Vec<(String, String)>,
    /// Path to the config file itself.
    pub path: String,
}

pub struct ConfigView {
    pub method: DeployMethod,
    pub entries: Seq<EntryView>,
    pub hooks: HooksView,
    pub vars: Seq<(Seq<char>, Seq<char>)>,
    pub path: Seq<char>,
}

pub open spec fn entries_view(v: Seq<Entry>) -> Seq<EntryView> {
    v.map_values(|e: Entry| e@)
}

pub open spec fn pairs_view(v: Seq<(String, String)>) -> Seq<(Seq<char>, Seq<char>)> {
    v.map_values(|p: (String, String)| (p.0@, p.1@))
}

impl View for Config {
    type V = ConfigView;

    open spec fn view(&self) -> ConfigView {
        ConfigView {
            method: self.settings.method,
            entries: entries_view(self.entries@),
            hooks: self.hooks@,
            vars: pairs_view(self.vars@),
            path: self.path@,
        }
    }
}

// ── Parser specification ──────────────────────────────────────────

/// An `[[entries]]` table while its keys are read.
pub struct BuilderView {
    pub source: Option<Seq<char>>,
    pub target: Option<Seq<char>>,
    pub method: Option<Seq<char>>,
    pub encrypted: bool,
    pub directory: bool,
    pub os: Option<Seq<char>>,
    pub permissions: Option<u32>,
    pub before: Option<Seq<char>>,
    pub after: Option<Seq<char>>,
}

pub open spec fn empty_builder() -> BuilderView {
    BuilderView {
        source: None,
        target: None,
        method: None,
        encrypted: false,
        directory: false,
        os: None,
        permissions: None,
        before: None,
        after: None,
    }
}

/// The parser's state between lines.
pub struct ParseState {
    pub method: DeployMethod,
    pub entries: Seq<EntryView>,
    pub hooks: HooksView,
    pub vars: Seq<(Seq<char>, Seq<char>)>,
    pub section: Option<Seq<char>>,
    pub current: Option<BuilderView>,
}

pub open spec fn initial_state() -> ParseState {
    ParseState {
        method: DeployMethod::Symlink,
        entries: Seq::empty(),
        hooks: HooksView { init: None, before: None, after: None },
        vars: Seq::empty(),
        section: None,
        current: None,
    }
}

/// Where the parser is after some lines: still going, or stopped at an
/// error (its message and 1-based line).
pub enum Progress {
    Going(ParseState),
    Failed(Seq<char>, nat),
}

/// The error for a `key = value` line whose value is a single quote
/// character, which can be neither a quoted nor a bare value.
pub open spec fn lone_quote_message() -> Seq<char> {
    "value is a lone quote character"@
}

pub open spec fn is_octal_digit(c: char) -> bool {
    '0' <= c && c <= '7'
}

/// The number written by octal digits.
pub open spec fn octal_num(d: Seq<char>) -> nat
    decreases d.len(),
{
    if d.len() == 0 {
        0
    } else {
        octal_num(d.drop_last()) * 8 + ((d.last() as u32) - ('0' as u32)) as nat
    }
}

/// The text after an optional leading `+`.
pub open spec fn unsigned_digits(s: Seq<char>) -> Seq<char> {
    if s.len() > 0 && s[0] == '+' {
        s.drop_first()
    } else {
        s
    }
}

pub open spec fn all_octal(d: Seq<char>) -> bool {
    forall|k: int| 0 <= k < d.len() ==> is_octal_digit(#[trigger] d[k])
}

/// `u32::from_str_radix(s, 8)`: an optional `+` and at least one octal
/// digit, whose value fits in a `u32`.
pub open spec fn octal_value(s: Seq<char>) -> Option<u32> {
    let d = unsigned_digits(s);
    if d.len() == 0 || !all_octal(d) {
        None
    } else if octal_num(d) > u32::MAX {
        None
    } else {
        Some(octal_num(d) as u32)
    }
}

/// `true`, `1` or `yes`, ignoring ASCII case.
pub open spec fn parse_bool_spec(s: Seq<char>) -> bool {
    let l = ascii_lower(s);
    l == "true"@ || l == "1"@ || l == "yes"@
}

/// Whether a source names a template: its extension is `dtmpl` (any case),
/// or it ends with `.dtmpl.enc`.
pub open spec fn is_template_source(source: Seq<char>) -> bool {
    (match path_extension(source) {
        Some(e) => eq_ignore_ascii_case(e, "dtmpl"@),
        None => false,
    }) || ends_with(source, ".dtmpl.enc"@)
}

/// An entry built from its table, or the error found at `line`.
pub open spec fn build_entry(b: BuilderView, line: nat) -> Result<EntryView, (Seq<char>, nat)> {
    match b.source {
        None => Err(("entry missing `source`"@, line)),
        Some(source) => match b.target {
            None => Err(("entry `"@ + source + "` missing `target`"@, line)),
            Some(target) => {
                let method = match b.method {
                    None => Ok(None),
                    Some(m) => match parse_method(m) {
                        Some(pm) => Ok(Some(pm)),
                        None => Err(
                            ("invalid method `"@ + m + "` for entry `"@ + source + "`"@, line),
                        ),
                    },
                };
                match method {
                    Err(e) => Err(e),
                    Ok(method) => Ok(
                        EntryView {
                            source,
                            target,
                            method,
                            encrypted: b.encrypted,
                            directory: b.directory,
                            template: is_template_source(source),
                            os: b.os,
                            permissions: b.permissions,
                            before: b.before,
                            after: b.after,
                        },
                    ),
                }
            },
        },
    }
}

/// Closes the open `[[entries]]` table, if any.
pub open spec fn flush(st: ParseState, line: nat) -> Progress {
    match st.current {
        None => Progress::Going(st),
        Some(b) => match build_entry(b, line) {
            Ok(e) => Progress::Going(ParseState { entries: st.entries.push(e), current: None, ..st }),
            Err((m, l)) => Progress::Failed(m, l),
        },
    }
}

/// A `key = value` line in the current section.
pub open spec fn handle_kv(st: ParseState, key: Seq<char>, value: Seq<char>, n: nat) -> Progress {
    match st.section {
        Some(sec) => if sec == "settings"@ {
            if key == "method"@ {
                match parse_method(value) {
                    Some(m) => Progress::Going(ParseState { method: m, ..st }),
                    None => Progress::Failed("invalid method `"@ + value + "`"@, n),
                }
            } else {
                Progress::Failed("unknown setting `"@ + key + "`"@, n)
            }
        } else if sec == "hooks"@ {
            if key == "init"@ {
                Progress::Going(ParseState { hooks: HooksView { init: Some(value), ..st.hooks }, ..st })
            } else if key == "before"@ {
                Progress::Going(ParseState { hooks: HooksView { before: Some(value), ..st.hooks }, ..st })
            } else if key == "after"@ {
                Progress::Going(ParseState { hooks: HooksView { after: Some(value), ..st.hooks }, ..st })
            } else {
                Progress::Failed("unknown hook `"@ + key + "`"@, n)
            }
        } else if sec == "entries"@ {
            match st.current {
                None => Progress::Failed("key-value outside [[entries]]"@, n),
                Some(b) => {
                    let nb = if key == "source"@ {
                        Some(BuilderView { source: Some(value), ..b })
                    } else if key == "target"@ {
                        Some(BuilderView { target: Some(value), ..b })
                    } else if key == "method"@ {
                        Some(BuilderView { method: Some(value), ..b })
                    } else if key == "encrypted"@ {
                        Some(BuilderView { encrypted: parse_bool_spec(value), ..b })
                    } else if key == "directory"@ {
                        Some(BuilderView { directory: parse_bool_spec(value), ..b })
                    } else if key == "os"@ {
                        Some(BuilderView { os: Some(value), ..b })
                    } else if key == "permissions"@ {
                        match octal_value(value) {
                            Some(p) => Some(BuilderView { permissions: Some(p), ..b }),
                            None => None,
                        }
                    } else if key == "before"@ {
                        Some(BuilderView { before: Some(value), ..b })
                    } else if key == "after"@ {
                        Some(BuilderView { after: Some(value), ..b })
                    } else {
                        None
                    };
                    match nb {
                        Some(nb) => Progress::Going(ParseState { current: Some(nb), ..st }),
                        None => if key == "permissions"@ {
                            Progress::Failed("invalid permissions `"@ + value + "`"@, n)
                        } else {
                            Progress::Failed("unknown entry field `"@ + key + "`"@, n)
                        },
                    }
                },
            }
        } else {
            Progress::Going(st)
        },
        None => Progress::Going(st),
    }
}

pub open spec fn is_table_array(line: Seq<char>) -> bool {
    starts_with(line, "[["@) && ends_with(line, "]]"@)
}

pub open spec fn is_table(line: Seq<char>) -> bool {
    starts_with(line, "["@) && ends_with(line, "]"@)
}

/// One raw line (numbered from 1) read in state `st`.
pub open spec fn step(st: ParseState, raw: Seq<char>, n: nat) -> Progress {
    let line = clean_line(raw);
    if line.len() == 0 {
        Progress::Going(st)
    } else if is_table_array(line) {
        match flush(st, n) {
            Progress::Going(s2) => {
                let name = trim(line.subrange(2, line.len() - 2));
                if name == "entries"@ {
                    Progress::Going(
                        ParseState { current: Some(empty_builder()), section: Some("entries"@), ..s2 },
                    )
                } else {
                    Progress::Failed("unknown section `[["@ + name + "]]`"@, n)
                }
            },
            other => other,
        }
    } else if is_table(line) {
        match flush(st, n) {
            Progress::Going(s2) => Progress::Going(
                ParseState { section: Some(trim(line.subrange(1, line.len() - 1))), ..s2 },
            ),
            other => other,
        }
    } else if kv_is_lone_quote(line) {
        Progress::Failed(lone_quote_message(), n)
    } else {
        match kv_of(line, false) {
            None => Progress::Going(st),
            Some((key, value)) => if st.section == Some("vars"@) {
                Progress::Going(ParseState { vars: st.vars.push((key, value)), ..st })
            } else {
                handle_kv(st, key, value, n)
            },
        }
    }
}

/// The parser after the first `k` lines.
pub open spec fn parse_lines(ls: Seq<Seq<char>>, k: nat) -> Progress
    decreases k,
{
    if k == 0 {
        Progress::Going(initial_state())
    } else {
        match parse_lines(ls, (k - 1) as nat) {
            Progress::Going(st) => step(st, ls[k - 1], k),
            other => other,
        }
    }
}

/// The configuration written in `input`, or the first error with its line.
pub open spec fn parse_config_spec(input: Seq<char>, path: Seq<char>) -> Result<
    ConfigView,
    (Seq<char>, nat),
> {
    let ls = lines(input);
    match parse_lines(ls, ls.len()) {
        Progress::Going(st) => match flush(st, ls.len()) {
            Progress::Going(s2) => Ok(
                ConfigView {
                    method: s2.method,
                    entries: s2.entries,
                    hooks: s2.hooks,
                    vars: s2.vars,
                    path,
                },
            ),
            Progress::Failed(m, l) => Err((m, l)),
        },
        Progress::Failed(m, l) => Err((m, l)),
    }
}


// ── Serializer ────────────────────────────────────────────────────

/// `key = "value"` with the value escaped.
pub open spec fn quoted_line(key: Seq<char>, v: Seq<char>) -> Seq<char> {
    key + " = \""@ + escape(v) + "\""@
}

/// `key = "value"` with the value as it is.
pub open spec fn raw_line(key: Seq<char>, v: Seq<char>) -> Seq<char> {
    key + " = \""@ + v + "\""@
}

pub open spec fn opt_line(key: Seq<char>, o: Option<Seq<char>>) -> Seq<Seq<char>> {
    match o {
        Some(v) => seq![quoted_line(key, v)],
        None => Seq::empty(),
    }
}

/// Octal digits of a number.
pub open spec fn octal_digits(n: nat) -> Seq<char>
    decreases n,
{
    if n < 8 {
        seq![digit_char(n)]
    } else {
        octal_digits(n / 8) + seq![digit_char(n % 8)]
    }
}

/// `{:04o}`: octal, padded with zeros to four digits.
pub open spec fn octal4(n: nat) -> Seq<char> {
    let d = octal_digits(n);
    if d.len() >= 4 {
        d
    } else {
        Seq::new((4 - d.len()) as nat, |i: int| '0') + d
    }
}

pub open spec fn header_line() -> Seq<char> {
    "# dotling.toml — managed by dotling, safe to hand-edit"@
}

pub open spec fn vars_comment_line() -> Seq<char> {
    "# Shared defaults — override in ~/.dotling/vars.toml on each machine"@
}

pub open spec fn settings_lines(m: DeployMethod) -> Seq<Seq<char>> {
    if m != DeployMethod::Symlink {
        seq!["[settings]"@, raw_line("method"@, method_name(m)), Seq::empty()]
    } else {
        Seq::empty()
    }
}

pub open spec fn hooks_lines(h: HooksView) -> Seq<Seq<char>> {
    if h.init is Some || h.before is Some || h.after is Some {
        seq!["[hooks]"@] + opt_line("init"@, h.init) + opt_line("before"@, h.before) + opt_line(
            "after"@,
            h.after,
        ) + seq![Seq::empty()]
    } else {
        Seq::empty()
    }
}

pub open spec fn pair_lines(vs: Seq<(Seq<char>, Seq<char>)>) -> Seq<Seq<char>>
    decreases vs.len(),
{
    if vs.len() == 0 {
        Seq::empty()
    } else {
        pair_lines(vs.drop_last()).push(quoted_line(vs.last().0, vs.last().1))
    }
}

pub open spec fn vars_lines(vs: Seq<(Seq<char>, Seq<char>)>) -> Seq<Seq<char>> {
    if vs.len() > 0 {
        seq!["[vars]"@, vars_comment_line()] + pair_lines(vs) + seq![Seq::empty()]
    } else {
        Seq::empty()
    }
}

pub open spec fn method_lines(m: Option<DeployMethod>) -> Seq<Seq<char>> {
    match m {
        Some(m) => seq![raw_line("method"@, method_name(m))],
        None => Seq::empty(),
    }
}

pub open spec fn flag_line(b: bool, line: Seq<char>) -> Seq<Seq<char>> {
    if b {
        seq![line]
    } else {
        Seq::empty()
    }
}

pub open spec fn os_lines(os: Option<Seq<char>>) -> Seq<Seq<char>> {
    match os {
        Some(os) => seq![raw_line("os"@, os)],
        None => Seq::empty(),
    }
}

pub open spec fn perm_lines(p: Option<u32>) -> Seq<Seq<char>> {
    match p {
        Some(p) => seq![raw_line("permissions"@, octal4(p as nat))],
        None => Seq::empty(),
    }
}

/// The first lines of an entry's table: its header, source, target, method
/// and flags.
pub open spec fn entry_head(e: EntryView) -> Seq<Seq<char>> {
    seq!["[[entries]]"@, quoted_line("source"@, e.source), quoted_line("target"@, e.target)]
        + method_lines(e.method) + flag_line(e.encrypted, "encrypted = true"@) + flag_line(
        e.directory,
        "directory = true"@,
    )
}

/// The last lines of an entry's table: os, permissions, hooks and a blank line.
pub open spec fn entry_tail(e: EntryView) -> Seq<Seq<char>> {
    os_lines(e.os) + perm_lines(e.permissions) + opt_line("before"@, e.before) + opt_line(
        "after"@,
        e.after,
    ) + seq![Seq::empty()]
}

pub open spec fn entry_lines(e: EntryView) -> Seq<Seq<char>> {
    entry_head(e) + entry_tail(e)
}

pub open spec fn entries_lines(es: Seq<EntryView>) -> Seq<Seq<char>>
    decreases es.len(),
{
    if es.len() == 0 {
        Seq::empty()
    } else {
        entries_lines(es.drop_last()) + entry_lines(es.last())
    }
}

/// The lines of a serialized configuration.
pub open spec fn config_lines(c: ConfigView) -> Seq<Seq<char>> {
    seq![header_line(), Seq::empty()] + settings_lines(c.method) + hooks_lines(c.hooks) + vars_lines(
        c.vars,
    ) + entries_lines(c.entries)
}

/// The serialized configuration: each line followed by a newline.
pub open spec fn serialize_spec(c: ConfigView) -> Seq<char> {
    join_lines(config_lines(c))
}

/// Octal digits of a number.
pub fn octal_vec(n: u32) -> (r: Vec<char>)
    ensures
        r@ == octal_digits(n as nat),
    decreases n,
{
    if n < 8 {
        let d = (n + 48) as u8;
        let mut r: Vec<char> = Vec::new();
        r.push(d as char);
        r
    } else {
        let mut r = octal_vec(n / 8);
        let d = ((n % 8) + 48) as u8;
        r.push(d as char);
        r
    }
}

/// `{:04o}`.
pub fn octal4_vec(n: u32) -> (r: Vec<char>)
    ensures
        r@ == octal4(n as nat),
{
    let d = octal_vec(n);
    if d.len() >= 4 {
        return d;
    }
    let mut r: Vec<char> = Vec::new();
    let pad = 4 - d.len();
    let mut i: usize = 0;
    while i < pad
        invariant
            i <= pad,
            r@ == Seq::new(i as nat, |k: int| '0'),
        decreases pad - i,
    {
        r.push('0');
        i += 1;
        assert(r@ =~= Seq::new(i as nat, |k: int| '0'));
    }
    push_all(&mut r, &d);
    r
}

/// A line of text plus its newline, recorded in `ls`.
fn put(out: &mut Vec<char>, line: &[char], Ghost(ls): Ghost<Seq<Seq<char>>>)
    requires
        old(out)@ == join_lines(ls),
    ensures
        final(out)@ == join_lines(ls.push(line@)),
{
    push_all(out, line);
    out.push('\n');
    assert(ls.push(line@).drop_last() == ls);
}

fn put_str(out: &mut Vec<char>, line: &str, Ghost(ls): Ghost<Seq<Seq<char>>>)
    requires
        old(out)@ == join_lines(ls),
    ensures
        final(out)@ == join_lines(ls.push(line@)),
{
    let v = chars_of(line);
    put(out, &v, Ghost(ls));
}

fn quoted_vec(key: &str, v: &str) -> (r: Vec<char>)
    ensures
        r@ == quoted_line(key@, v@),
{
    let mut r: Vec<char> = Vec::new();
    push_str(&mut r, key);
    push_str(&mut r, " = \"");
    let vc = chars_of(v);
    let e = escape_vec(&vc);
    push_all(&mut r, &e);
    push_str(&mut r, "\"");
    r
}

fn raw_vec(key: &str, v: &[char]) -> (r: Vec<char>)
    ensures
        r@ == raw_line(key@, v@),
{
    let mut r: Vec<char> = Vec::new();
    push_str(&mut r, key);
    push_str(&mut r, " = \"");
    push_all(&mut r, v);
    push_str(&mut r, "\"");
    r
}

fn put_opt(
    out: &mut Vec<char>,
    key: &str,
    o: &Option<String>,
    Ghost(ls): Ghost<Seq<Seq<char>>>,
) -> (r: Ghost<Seq<Seq<char>>>)
    requires
        old(out)@ == join_lines(ls),
    ensures
        r@ == ls + opt_line(key@, opt_view(*o)),
        final(out)@ == join_lines(r@),
{
    match o {
        Some(v) => {
            let line = quoted_vec(key, v.as_str());
            put(out, &line, Ghost(ls));
            assert(ls.push(line@) == ls + opt_line(key@, opt_view(*o)));
            Ghost(ls.push(line@))
        },
        None => {
            assert(ls + opt_line(key@, opt_view(*o)) == ls);
            Ghost(ls)
        },
    }
}

pub proof fn lemma_empty_str()
    ensures
        ""@ == Seq::<char>::empty(),
{
    reveal_strlit("");
    assert(""@ =~= Seq::<char>::empty());
}

fn put_entry_head(out: &mut Vec<char>, entry: &Entry, Ghost(ls): Ghost<Seq<Seq<char>>>) -> (r: Ghost<
    Seq<Seq<char>>,
>)
    requires
        old(out)@ == join_lines(ls),
    ensures
        r@ == ls + entry_head(entry@),
        final(out)@ == join_lines(r@),
{
    let ghost e = entry@;
    let ghost l0 = ls;
    put_str(out, "[[entries]]", Ghost(ls));
    let line1 = quoted_vec("source", entry.source.as_str());
    put(out, &line1, Ghost(ls.push("[[entries]]"@)));
    let line2 = quoted_vec("target", entry.target.as_str());
    let ghost l1 = ls.push("[[entries]]"@).push(line1@);
    put(out, &line2, Ghost(l1));
    let ghost l2 = l1.push(line2@);
    assert(l2 == l0 + seq!["[[entries]]"@, quoted_line("source"@, e.source), quoted_line("target"@, e.target)]);
    let ghost mut cur = l2;
    if let Some(method) = entry.method {
        let name = chars_of(method.as_str());
        let line = raw_vec("method", &name);
        put(out, &line, Ghost(cur));
        proof {
            cur = cur.push(line@);
        }
    }
    assert(cur == l2 + method_lines(e.method));
    let ghost l3 = cur;
    if entry.encrypted {
        put_str(out, "encrypted = true", Ghost(cur));
        proof {
            cur = cur.push("encrypted = true"@);
        }
    }
    assert(cur == l3 + flag_line(e.encrypted, "encrypted = true"@));
    let ghost l4 = cur;
    if entry.directory {
        put_str(out, "directory = true", Ghost(cur));
        proof {
            cur = cur.push("directory = true"@);
        }
    }
    assert(cur == l4 + flag_line(e.directory, "directory = true"@));
    assert(cur =~= ls + entry_head(e));
    Ghost(cur)
}

fn put_entry_tail(out: &mut Vec<char>, entry: &Entry, Ghost(ls): Ghost<Seq<Seq<char>>>) -> (r: Ghost<
    Seq<Seq<char>>,
>)
    requires
        old(out)@ == join_lines(ls),
    ensures
        r@ == ls + entry_tail(entry@),
        final(out)@ == join_lines(r@),
{
    let ghost e = entry@;
    let ghost mut cur = ls;
    if let Some(os) = &entry.os {
        let v = chars_of(os.as_str());
        let line = raw_vec("os", &v);
        put(out, &line, Ghost(cur));
        proof {
            cur = cur.push(line@);
        }
    }
    assert(cur == ls + os_lines(e.os));
    let ghost l1 = cur;
    if let Some(perms) = entry.permissions {
        let v = octal4_vec(perms);
        let line = raw_vec("permissions", &v);
        put(out, &line, Ghost(cur));
        proof {
            cur = cur.push(line@);
        }
    }
    assert(cur == l1 + perm_lines(e.permissions));
    let Ghost(l2) = put_opt(out, "before", &entry.before, Ghost(cur));
    let Ghost(l3) = put_opt(out, "after", &entry.after, Ghost(l2));
    put_str(out, "", Ghost(l3));
    proof {
        lemma_empty_str();
        assert(l3.push(Seq::empty()) =~= ls + entry_tail(e));
    }
    Ghost(l3.push(Seq::empty()))
}

fn put_entry(out: &mut Vec<char>, entry: &Entry, Ghost(ls): Ghost<Seq<Seq<char>>>) -> (r: Ghost<
    Seq<Seq<char>>,
>)
    requires
        old(out)@ == join_lines(ls),
    ensures
        r@ == ls + entry_lines(entry@),
        final(out)@ == join_lines(r@),
{
    let Ghost(l1) = put_entry_head(out, entry, Ghost(ls));
    let Ghost(l2) = put_entry_tail(out, entry, Ghost(l1));
    assert(l2 =~= ls + entry_lines(entry@));
    Ghost(l2)
}

fn put_settings(out: &mut Vec<char>, m: DeployMethod, Ghost(ls): Ghost<Seq<Seq<char>>>) -> (r: Ghost<
    Seq<Seq<char>>,
>)
    requires
        old(out)@ == join_lines(ls),
    ensures
        r@ == ls + settings_lines(m),
        final(out)@ == join_lines(r@),
{
    if m != DeployMethod::Symlink {
        put_str(out, "[settings]", Ghost(ls));
        let name = chars_of(m.as_str());
        let line = raw_vec("method", &name);
        let ghost l1 = ls.push("[settings]"@);
        put(out, &line, Ghost(l1));
        let ghost l2 = l1.push(line@);
        put_str(out, "", Ghost(l2));
        proof {
            lemma_empty_str();
            assert(l2.push(Seq::empty()) =~= ls + settings_lines(m));
        }
        Ghost(l2.push(Seq::empty()))
    } else {
        assert(ls + settings_lines(m) =~= ls);
        Ghost(ls)
    }
}

fn put_hooks(out: &mut Vec<char>, hooks: &Hooks, Ghost(ls): Ghost<Seq<Seq<char>>>) -> (r: Ghost<
    Seq<Seq<char>>,
>)
    requires
        old(out)@ == join_lines(ls),
    ensures
        r@ == ls + hooks_lines(hooks@),
        final(out)@ == join_lines(r@),
{
    if hooks.init.is_some() || hooks.before.is_some() || hooks.after.is_some() {
        put_str(out, "[hooks]", Ghost(ls));
        let ghost l0 = ls.push("[hooks]"@);
        let Ghost(l1) = put_opt(out, "init", &hooks.init, Ghost(l0));
        let Ghost(l2) = put_opt(out, "before", &hooks.before, Ghost(l1));
        let Ghost(l3) = put_opt(out, "after", &hooks.after, Ghost(l2));
        put_str(out, "", Ghost(l3));
        proof {
            lemma_empty_str();
            assert(l3.push(Seq::empty()) =~= ls + hooks_lines(hooks@));
        }
        Ghost(l3.push(Seq::empty()))
    } else {
        assert(ls + hooks_lines(hooks@) =~= ls);
        Ghost(ls)
    }
}

fn put_vars(out: &mut Vec<char>, vars: &Vec<(String, String)>, Ghost(ls): Ghost<Seq<Seq<char>>>) -> (r: Ghost<
    Seq<Seq<char>>,
>)
    requires
        old(out)@ == join_lines(ls),
    ensures
        r@ == ls + vars_lines(pairs_view(vars@)),
        final(out)@ == join_lines(r@),
{
    let ghost vs = pairs_view(vars@);
    if vars.len() == 0 {
        assert(ls + vars_lines(vs) =~= ls);
        return Ghost(ls);
    }
    put_str(out, "[vars]", Ghost(ls));
    let ghost l0 = ls.push("[vars]"@);
    put_str(out, "# Shared defaults — override in ~/.dotling/vars.toml on each machine", Ghost(l0));
    let ghost start = l0.push(vars_comment_line());
    let ghost mut cur = start;
    let mut i: usize = 0;
    while i < vars.len()
        invariant
            i <= vars@.len(),
            vs == pairs_view(vars@),
            out@ == join_lines(cur),
            cur == start + pair_lines(vs.take(i as int)),
        decreases vars@.len() - i,
    {
        let (key, value) = &vars[i];
        let line = quoted_vec(key.as_str(), value.as_str());
        put(out, &line, Ghost(cur));
        proof {
            assert(vs[i as int] == (key@, value@));
            assert(vs.take(i + 1).drop_last() == vs.take(i as int));
            cur = cur.push(line@);
        }
        i += 1;
    }
    assert(vs.take(vs.len() as int) == vs);
    put_str(out, "", Ghost(cur));
    proof {
        lemma_empty_str();
        assert(cur.push(Seq::empty()) =~= ls + vars_lines(vs));
    }
    Ghost(cur.push(Seq::empty()))
}

/// Serialize a config to TOML.
pub fn serialize_config(config: &Config) -> (r: String)
    ensures
        r@ == serialize_spec(config@),
{
    let ghost c = config@;
    let mut out: Vec<char> = Vec::new();
    put_str(&mut out, "# dotling.toml — managed by dotling, safe to hand-edit", Ghost(Seq::empty()));
    let ghost l0 = Seq::<Seq<char>>::empty().push(header_line());
    put_str(&mut out, "", Ghost(l0));
    proof {
        lemma_empty_str();
    }
    let ghost l1 = l0.push(Seq::empty());
    assert(l1 == seq![header_line(), Seq::<char>::empty()]);
    let Ghost(l2) = put_settings(&mut out, config.settings.method, Ghost(l1));
    let Ghost(l3) = put_hooks(&mut out, &config.hooks, Ghost(l2));
    let Ghost(l4) = put_vars(&mut out, &config.vars, Ghost(l3));
    let ghost mut ls = l4;
    let mut i: usize = 0;
    while i < config.entries.len()
        invariant
            i <= config.entries@.len(),
            c == config@,
            out@ == join_lines(ls),
            ls == l4 + entries_lines(c.entries.take(i as int)),
        decreases config.entries@.len() - i,
    {
        let entry = &config.entries[i];
        let ghost e = entry@;
        let Ghost(l) = put_entry(&mut out, entry, Ghost(ls));
        proof {
            assert(c.entries[i as int] == e);
            assert(c.entries.take(i + 1).drop_last() == c.entries.take(i as int));
            assert(l =~= l4 + entries_lines(c.entries.take(i + 1)));
            ls = l;
        }
        i += 1;
    }
    assert(c.entries.take(c.entries.len() as int) == c.entries);
    assert(ls =~= config_lines(c));
    string_of(&out)
}

// ── Entry lookup and editing ──────────────────────────────────────

/// Index of the first entry at or after `i` with this source, or -1.
pub open spec fn source_index_from(es: Seq<EntryView>, source: Seq<char>, i: int) -> int
    decreases es.len() - i,
{
    if i < 0 || i >= es.len() {
        -1
    } else if es[i].source == source {
        i
    } else {
        source_index_from(es, source, i + 1)
    }
}

/// Index of the first entry with this source, or -1.
pub open spec fn source_index(es: Seq<EntryView>, source: Seq<char>) -> int {
    source_index_from(es, source, 0)
}

/// Index of the first entry at or after `i` with this target, or -1.
pub open spec fn target_index_from(es: Seq<EntryView>, target: Seq<char>, i: int) -> int
    decreases es.len() - i,
{
    if i < 0 || i >= es.len() {
        -1
    } else if es[i].target == target {
        i
    } else {
        target_index_from(es, target, i + 1)
    }
}

/// Index of the first entry with this target, or -1.
pub open spec fn target_index(es: Seq<EntryView>, target: Seq<char>) -> int {
    target_index_from(es, target, 0)
}

pub proof fn lemma_source_index_from(es: Seq<EntryView>, source: Seq<char>, i: int)
    requires
        0 <= i,
    ensures
        source_index_from(es, source, i) == -1 || (i <= source_index_from(es, source, i)
            < es.len() && es[source_index_from(es, source, i)].source == source),
    decreases es.len() - i,
{
    if i < es.len() && es[i].source != source {
        lemma_source_index_from(es, source, i + 1);
    }
}

pub proof fn lemma_target_index_from(es: Seq<EntryView>, target: Seq<char>, i: int)
    requires
        0 <= i,
    ensures
        target_index_from(es, target, i) == -1 || (i <= target_index_from(es, target, i)
            < es.len() && es[target_index_from(es, target, i)].target == target),
    decreases es.len() - i,
{
    if i < es.len() && es[i].target != target {
        lemma_target_index_from(es, target, i + 1);
    }
}

/// The parent of a path (`Path::parent`).
pub open spec fn parent_of(p: Seq<char>) -> Option<Seq<char>> {
    let ps = parts_of(p);
    if ps.len() == 0 || ps == seq![seq!['/']] {
        None
    } else {
        Some(collect(ps.drop_last()))
    }
}

/// Whether an entry answers a query: by source or target as written, or by
/// the resolved target or the resolved source under the repo root.
pub open spec fn entry_matches(
    e: EntryView,
    query: Seq<char>,
    root: Option<Seq<char>>,
    home: Seq<char>,
    cwd: Seq<char>,
) -> bool {
    let rq = resolve_spec(query, home, cwd);
    ||| e.source == query
    ||| e.target == query
    ||| rq == resolve_spec(e.target, home, cwd)
    ||| (root matches Some(r) && rq == resolve_spec(join(r, e.source), home, cwd))
}

/// Index of the first entry at or after `i` that answers a query, or -1.
pub open spec fn match_index_from(
    es: Seq<EntryView>,
    query: Seq<char>,
    root: Option<Seq<char>>,
    home: Seq<char>,
    cwd: Seq<char>,
    i: int,
) -> int
    decreases es.len() - i,
{
    if i < 0 || i >= es.len() {
        -1
    } else if entry_matches(es[i], query, root, home, cwd) {
        i
    } else {
        match_index_from(es, query, root, home, cwd, i + 1)
    }
}

/// Index of the first entry that answers a query, or -1.
pub open spec fn match_index(
    es: Seq<EntryView>,
    query: Seq<char>,
    root: Option<Seq<char>>,
    home: Seq<char>,
    cwd: Seq<char>,
) -> int {
    match_index_from(es, query, root, home, cwd, 0)
}

/// The entry that a query finds in a configuration: the index of the first
/// entry that answers it (by source or target as written, or by the
/// resolved path), or -1. `find_entry_index`, `find_entry` and
/// `find_entry_mut` all answer with this entry.
pub open spec fn lookup_index(c: ConfigView, query: Seq<char>, home: Seq<char>, cwd: Seq<char>) -> int {
    match_index(c.entries, query, parent_of(c.path), home, cwd)
}

proof fn lemma_match_first(
    es: Seq<EntryView>,
    query: Seq<char>,
    root: Option<Seq<char>>,
    home: Seq<char>,
    cwd: Seq<char>,
    i: int,
)
    requires
        0 <= i,
    ensures
        ({
            let k = match_index_from(es, query, root, home, cwd, i);
            &&& k == -1 ==> forall|j: int| i <= j < es.len() ==> !entry_matches(#[trigger] es[j], query, root, home, cwd)
            &&& k != -1 ==> i <= k < es.len() && entry_matches(es[k], query, root, home, cwd)
                && forall|j: int| i <= j < k ==> !entry_matches(#[trigger] es[j], query, root, home, cwd)
        }),
    decreases es.len() - i,
{
    if i < es.len() && !entry_matches(es[i], query, root, home, cwd) {
        lemma_match_first(es, query, root, home, cwd, i + 1);
    }
}

/// A lookup finds the first entry that answers the query, and finds none
/// only when no entry answers it; `find_entry` and `find_entry_mut`, which
/// both answer with `lookup_index`, therefore pick the same entry.
pub proof fn law_lookup_first_match(c: ConfigView, query: Seq<char>, home: Seq<char>, cwd: Seq<char>)
    ensures
        ({
            let k = lookup_index(c, query, home, cwd);
            let root = parent_of(c.path);
            &&& k == -1 <==> forall|j: int| 0 <= j < c.entries.len() ==> !entry_matches(
                #[trigger] c.entries[j],
                query,
                root,
                home,
                cwd,
            )
            &&& k != -1 ==> 0 <= k < c.entries.len() && entry_matches(c.entries[k], query, root, home, cwd)
                && forall|j: int| 0 <= j < k ==> !entry_matches(#[trigger] c.entries[j], query, root, home, cwd)
        }),
{
    lemma_match_first(c.entries, query, parent_of(c.path), home, cwd, 0);
}

pub proof fn lemma_match_index_from(
    es: Seq<EntryView>,
    query: Seq<char>,
    root: Option<Seq<char>>,
    home: Seq<char>,
    cwd: Seq<char>,
    i: int,
)
    requires
        0 <= i,
    ensures
        match_index_from(es, query, root, home, cwd, i) == -1 || i <= match_index_from(
            es,
            query,
            root,
            home,
            cwd,
            i,
        ) < es.len(),
    decreases es.len() - i,
{
    if i < es.len() && !entry_matches(es[i], query, root, home, cwd) {
        lemma_match_index_from(es, query, root, home, cwd, i + 1);
    }
}

fn parent_vec(p: &[char]) -> (r: Option<Vec<char>>)
    ensures
        match r {
            Some(v) => parent_of(p@) == Some(v@),
            None => parent_of(p@) is None,
        },
{
    let mut ps = parts_vec(p);
    if ps.len() == 0 {
        return None;
    }
    if ps.len() == 1 && ps[0].len() == 1 && ps[0][0] == '/' {
        assert(ps@[0]@ =~= seq!['/']);
        assert(seqs_of(ps@) =~= seq![seq!['/']]);
        return None;
    }
    proof {
        if seqs_of(ps@) == seq![seq!['/']] {
            assert(seqs_of(ps@)[0] == ps@[0]@);
            assert(ps@[0]@.len() == 1);
        }
    }
    let ghost full = seqs_of(ps@);
    ps.pop();
    assert(seqs_of(ps@) =~= full.drop_last());
    Some(collect_vec(&ps))
}

impl Config {
    /// Create a new, empty config.
    pub fn new(path: &str) -> (r: Config)
        ensures
            r@ == (ConfigView {
                method: DeployMethod::Symlink,
                entries: Seq::empty(),
                hooks: HooksView { init: None, before: None, after: None },
                vars: Seq::empty(),
                path: path@,
            }),
    {
        let c = Config {
            settings: Settings::default_settings(),
            entries: Vec::new(),
            hooks: Hooks::none(),
            vars: Vec::new(),
            path: path.to_string(),
        };
        assert(entries_view(c.entries@) =~= Seq::<EntryView>::empty());
        assert(pairs_view(c.vars@) =~= Seq::<(Seq<char>, Seq<char>)>::empty());
        c
    }

    /// The path of the config file.
    pub fn path(&self) -> (r: &str)
        ensures
            r@ == self.path@,
    {
        self.path.as_str()
    }

    /// The text that saving writes to the config's path.
    pub fn save(&self) -> (r: String)
        ensures
            r@ == serialize_spec(self@),
    {
        serialize_config(self)
    }

    /// Add an entry. Returns an error if the source is already tracked or
    /// the target is already in use.
    pub fn add_entry(&mut self, entry: Entry) -> (r: Result<(), Error>)
        ensures
            ({
                let es = old(self)@.entries;
                let si = source_index(es, entry.source@);
                let ti = target_index(es, entry.target@);
                &&& si >= 0 ==> (r matches Err(Error::User(m)) && m@ == "`"@ + entry.source@
                    + "` is already tracked"@ && final(self)@ == old(self)@)
                &&& si < 0 && ti >= 0 ==> (r matches Err(Error::User(m)) && m@
                    == "target `"@ + entry.target@ + "` is already in use by `"@ + es[ti].source
                    + "`"@ && final(self)@ == old(self)@)
                &&& si < 0 && ti < 0 ==> r is Ok && final(self)@ == (ConfigView {
                    entries: es.push(entry@),
                    ..old(self)@
                })
            }),
    {
        let ghost es = self@.entries;
        let mut i: usize = 0;
        while i < self.entries.len()
            invariant
                i <= self.entries@.len(),
                es == entries_view(self.entries@),
                es == old(self)@.entries,
                *self == *old(self),
                source_index(es, entry.source@) == source_index_from(es, entry.source@, i as int),
            decreases self.entries@.len() - i,
        {
            if self.entries[i].source == entry.source {
                assert(es[i as int].source == entry.source@);
                let mut v: Vec<char> = Vec::new();
                push_str(&mut v, "`");
                push_str(&mut v, entry.source.as_str());
                push_str(&mut v, "` is already tracked");
                return Err(Error::User(string_of(&v)));
            }
            i += 1;
        }
        let mut j: usize = 0;
        while j < self.entries.len()
            invariant
                j <= self.entries@.len(),
                es == entries_view(self.entries@),
                es == old(self)@.entries,
                *self == *old(self),
                source_index(es, entry.source@) == -1,
                target_index(es, entry.target@) == target_index_from(es, entry.target@, j as int),
            decreases self.entries@.len() - j,
        {
            if self.entries[j].target == entry.target {
                assert(es[j as int].target == entry.target@);
                let mut v: Vec<char> = Vec::new();
                push_str(&mut v, "target `");
                push_str(&mut v, entry.target.as_str());
                push_str(&mut v, "` is already in use by `");
                push_str(&mut v, self.entries[j].source.as_str());
                push_str(&mut v, "`");
                return Err(Error::User(string_of(&v)));
            }
            j += 1;
        }
        let ghost e0 = self.entries@;
        self.entries.push(entry);
        proof {
            lemma_entries_push(e0, entry);
        }
        Ok(())
    }

    /// Remove an entry by source path. Returns the removed entry.
    pub fn remove_entry(&mut self, source: &str) -> (r: Option<Entry>)
        ensures
            ({
                let es = old(self)@.entries;
                let si = source_index(es, source@);
                &&& si < 0 ==> r is None && final(self)@ == old(self)@
                &&& si >= 0 ==> (r matches Some(e) && e@ == es[si] && final(self)@ == (ConfigView {
                    entries: es.remove(si),
                    ..old(self)@
                }))
            }),
    {
        let ghost es = self@.entries;
        let mut i: usize = 0;
        while i < self.entries.len()
            invariant
                i <= self.entries@.len(),
                es == entries_view(self.entries@),
                es == old(self)@.entries,
                *self == *old(self),
                source_index(es, source@) == source_index_from(es, source@, i as int),
            decreases self.entries@.len() - i,
        {
            if str_eq(self.entries[i].source.as_str(), source) {
                let ghost e0 = self.entries@;
                let e = self.entries.remove(i);
                assert(entries_view(self.entries@) =~= es.remove(i as int));
                return Some(e);
            }
            i += 1;
        }
        None
    }

    /// Index of the first entry found by source path or target path, as
    /// written or resolved with `home` and `cwd`.
    pub fn find_entry_index(&self, query: &str, home: &str, cwd: &str) -> (r: Option<usize>)
        ensures
            ({
                let k = lookup_index(self@, query@, home@, cwd@);
                &&& k < 0 ==> r is None
                &&& k >= 0 ==> r == Some(k as usize)
            }),
    {
        let ghost es = self@.entries;
        let ghost root = parent_of(self@.path);
        let pc = chars_of(self.path.as_str());
        let parent = parent_vec(&pc);
        let rq = resolve(query, home, cwd);
        proof {
            lemma_match_index_from(es, query@, root, home@, cwd@, 0);
        }
        let mut i: usize = 0;
        while i < self.entries.len()
            invariant
                i <= self.entries@.len(),
                es == entries_view(self.entries@),
                es == self@.entries,
                root == parent_of(self@.path),
                ov(parent) == root,
                rq@ == resolve_spec(query@, home@, cwd@),
                match_index(es, query@, root, home@, cwd@) == match_index_from(
                    es,
                    query@,
                    root,
                    home@,
                    cwd@,
                    i as int,
                ),
            decreases self.entries@.len() - i,
        {
            let e = &self.entries[i];
            let ghost ev = es[i as int];
            let mut hit = str_eq(e.source.as_str(), query) || str_eq(e.target.as_str(), query);
            if !hit {
                let rt = resolve(e.target.as_str(), home, cwd);
                hit = rt == rq;
            }
            if !hit {
                if let Some(root_v) = &parent {
                    let mut joined = copy_vec(root_v);
                    let sv = chars_of(e.source.as_str());
                    push_path_vec(&mut joined, &sv);
                    let js = string_of(&joined);
                    let rs = resolve(js.as_str(), home, cwd);
                    hit = rs == rq;
                }
            }
            if hit {
                assert(entry_matches(ev, query@, root, home@, cwd@));
                return Some(i);
            }
            assert(!entry_matches(ev, query@, root, home@, cwd@));
            i += 1;
        }
        None
    }

    /// Find an entry mutably by source path or target path.
    pub fn find_entry_mut(&mut self, query: &str, home: &str, cwd: &str) -> (r: Option<&mut Entry>)
        ensures
            ({
                let k = lookup_index(old(self)@, query@, home@, cwd@);
                &&& k < 0 ==> (r is None && final(self)@ == old(self)@)
                &&& k >= 0 ==> (r is Some && *r->0 == old(self).entries@[k] && final(self).entries@
                    == old(self).entries@.update(k, *final(r->0)) && final(self).settings
                    == old(self).settings && final(self).hooks == old(self).hooks && final(self).vars
                    == old(self).vars && final(self).path == old(self).path)
            }),
    {
        proof {
            lemma_match_index_from(self@.entries, query@, parent_of(self@.path), home@, cwd@, 0);
        }
        let n = self.entries.len();
        assert(self@.entries.len() == n);
        match self.find_entry_index(query, home, cwd) {
            Some(i) => Some(&mut self.entries[i]),
            None => None,
        }
    }

    /// Find an entry by source path or target path.
    pub fn find_entry(&self, query: &str, home: &str, cwd: &str) -> (r: Option<&Entry>)
        ensures
            ({
                let k = lookup_index(self@, query@, home@, cwd@);
                &&& k < 0 ==> r is None
                &&& k >= 0 ==> (r matches Some(e) && e@ == self@.entries[k])
            }),
    {
        proof {
            lemma_match_index_from(self@.entries, query@, parent_of(self@.path), home@, cwd@, 0);
        }
        let n = self.entries.len();
        assert(self@.entries.len() == n);
        match self.find_entry_index(query, home, cwd) {
            Some(i) => {
                let e = &self.entries[i];
                Some(e)
            },
            None => None,
        }
    }
}


// ── Parser ────────────────────────────────────────────────────────

/// A configuration error with its message and line.
pub open spec fn is_config_error(e: Error, m: Seq<char>, l: nat) -> bool {
    match e {
        Error::Config { message, line: Some(x) } => message@ == m && x == l,
        _ => false,
    }
}

/// `a + b + c` as a `String`.
pub fn cat3(a: &str, b: &[char], c: &str) -> (r: String)
    ensures
        r@ == a@ + b@ + c@,
{
    let mut v: Vec<char> = Vec::new();
    push_str(&mut v, a);
    push_all(&mut v, b);
    push_str(&mut v, c);
    string_of(&v)
}

fn config_error(message: String, line: usize) -> (e: Error)
    ensures
        is_config_error(e, message@, line as nat),
{
    Error::Config { message, line: Some(line) }
}

/// `u32::from_str_radix(s, 8).ok()`.
pub fn parse_octal(s: &[char]) -> (r: Option<u32>)
    ensures
        r == octal_value(s@),
{
    let start: usize = if s.len() > 0 && s[0] == '+' {
        1
    } else {
        0
    };
    let ghost d = unsigned_digits(s@);
    assert(d == s@.skip(start as int));
    if start == s.len() {
        return None;
    }
    let mut i = start;
    while i < s.len()
        invariant
            start <= i <= s@.len(),
            d == s@.skip(start as int),
            d == unsigned_digits(s@),
            forall|k: int| 0 <= k < i - start ==> is_octal_digit(d[k]),
        decreases s@.len() - i,
    {
        if !('0' <= s[i] && s[i] <= '7') {
            assert(!is_octal_digit(d[i - start]));
            assert(!all_octal(d));
            return None;
        }
        i += 1;
    }
    let mut acc: u64 = 0;
    let mut j = start;
    while j < s.len()
        invariant
            start <= j <= s@.len(),
            d == s@.skip(start as int),
            d == unsigned_digits(s@),
            forall|k: int| 0 <= k < d.len() ==> is_octal_digit(d[k]),
            acc == octal_num(d.take(j - start)),
            acc <= u32::MAX,
        decreases s@.len() - j,
    {
        proof {
            assert(d[j - start] == s@[j as int]);
            assert(is_octal_digit(d[j - start]));
        }
        let digit = (s[j] as u32 - '0' as u32) as u64;
        proof {
            lemma_octal_step(d, j - start);
        }
        acc = acc * 8 + digit;
        if acc > 0xFFFF_FFFF {
            proof {
                lemma_octal_grows(d, j - start + 1);
                assert(all_octal(d));
            }
            return None;
        }
        j += 1;
    }
    assert(d.take(d.len() as int) == d);
    Some(acc as u32)
}

pub proof fn lemma_octal_step(d: Seq<char>, k: int)
    requires
        0 <= k < d.len(),
    ensures
        octal_num(d.take(k + 1)) == octal_num(d.take(k)) * 8 + ((d[k] as u32) - ('0' as u32)) as nat,
{
    assert(d.take(k + 1).drop_last() == d.take(k));
    assert(d.take(k + 1).last() == d[k]);
}

/// Reading more octal digits never lowers the value.
pub proof fn lemma_octal_grows(d: Seq<char>, k: int)
    requires
        0 <= k <= d.len(),
    ensures
        octal_num(d) >= octal_num(d.take(k)),
    decreases d.len() - k,
{
    if k < d.len() {
        lemma_octal_grows(d, k + 1);
        assert(d.take(k + 1).drop_last() == d.take(k));
    } else {
        assert(d.take(k) == d);
    }
}

/// `true`, `1` or `yes`, ignoring ASCII case.
pub fn parse_bool(s: &[char]) -> (r: bool)
    ensures
        r == parse_bool_spec(s@),
{
    let l = ascii_lower_vec(s);
    same_str(&l, "true") || same_str(&l, "1") || same_str(&l, "yes")
}

/// Whether a source path names a template.
pub fn is_template(source: &[char]) -> (r: bool)
    ensures
        r == is_template_source(source@),
{
    let ext_match = match extension_vec(source) {
        Some(e) => {
            let l = ascii_lower_vec(&e);
            let d = chars_of("dtmpl");
            let dl = ascii_lower_vec(&d);
            same(&l, &dl)
        },
        None => false,
    };
    let suffix = chars_of(".dtmpl.enc");
    ext_match || ends_with_exec(source, &suffix)
}

pub open spec fn ov(o: Option<Vec<char>>) -> Option<Seq<char>> {
    match o {
        Some(v) => Some(v@),
        None => None,
    }
}

fn opt_string(o: Option<Vec<char>>) -> (r: Option<String>)
    ensures
        opt_view(r) == ov(o),
{
    match o {
        Some(v) => Some(string_of(&v)),
        None => None,
    }
}

struct EntryBuilder {
    source: Option<Vec<char>>,
    target: Option<Vec<char>>,
    method: Option<Vec<char>>,
    encrypted: bool,
    directory: bool,
    os: Option<Vec<char>>,
    permissions: Option<u32>,
    before: Option<Vec<char>>,
    after: Option<Vec<char>>,
}

impl View for EntryBuilder {
    type V = BuilderView;

    closed spec fn view(&self) -> BuilderView {
        BuilderView {
            source: ov(self.source),
            target: ov(self.target),
            method: ov(self.method),
            encrypted: self.encrypted,
            directory: self.directory,
            os: ov(self.os),
            permissions: self.permissions,
            before: ov(self.before),
            after: ov(self.after),
        }
    }
}

impl EntryBuilder {
    fn new() -> (b: EntryBuilder)
        ensures
            b@ == empty_builder(),
    {
        EntryBuilder {
            source: None,
            target: None,
            method: None,
            encrypted: false,
            directory: false,
            os: None,
            permissions: None,
            before: None,
            after: None,
        }
    }

    fn build(self, line: usize) -> (r: Result<Entry, Error>)
        ensures
            match r {
                Ok(e) => build_entry(self@, line as nat) == Ok::<EntryView, (Seq<char>, nat)>(e@),
                Err(e) => match build_entry(self@, line as nat) {
                    Err((m, l)) => is_config_error(e, m, l),
                    Ok(_) => false,
                },
            },
    {
        let ghost b = self@;
        let source = match self.source {
            Some(s) => s,
            None => {
                return Err(config_error("entry missing `source`".to_string(), line));
            },
        };
        let target = match self.target {
            Some(t) => t,
            None => {
                return Err(config_error(cat3("entry `", &source, "` missing `target`"), line));
            },
        };
        let method = match self.method {
            None => None,
            Some(m) => match DeployMethod::parse(&m) {
                Some(pm) => Some(pm),
                None => {
                    let mut v: Vec<char> = Vec::new();
                    push_str(&mut v, "invalid method `");
                    push_all(&mut v, &m);
                    push_str(&mut v, "` for entry `");
                    push_all(&mut v, &source);
                    push_str(&mut v, "`");
                    return Err(config_error(string_of(&v), line));
                },
            },
        };
        let template = is_template(&source);
        Ok(
            Entry {
                source: string_of(&source),
                target: string_of(&target),
                method,
                encrypted: self.encrypted,
                directory: self.directory,
                template,
                os: opt_string(self.os),
                permissions: self.permissions,
                before: opt_string(self.before),
                after: opt_string(self.after),
            },
        )
    }
}

/// The parser's state between lines.
struct Parser {
    method: DeployMethod,
    entries: Vec<Entry>,
    hooks: Hooks,
    vars: Vec<(String, String)>,
    section: Option<Vec<char>>,
    current: Option<EntryBuilder>,
}

spec fn builder_view(o: Option<EntryBuilder>) -> Option<BuilderView> {
    match o {
        Some(b) => Some(b@),
        None => None,
    }
}

impl View for Parser {
    type V = ParseState;

    closed spec fn view(&self) -> ParseState {
        ParseState {
            method: self.method,
            entries: entries_view(self.entries@),
            hooks: self.hooks@,
            vars: pairs_view(self.vars@),
            section: ov(self.section),
            current: builder_view(self.current),
        }
    }
}

pub proof fn lemma_entries_push(v: Seq<Entry>, e: Entry)
    ensures
        entries_view(v.push(e)) == entries_view(v).push(e@),
{
    assert(entries_view(v.push(e)) =~= entries_view(v).push(e@));
}

pub proof fn lemma_pairs_push(v: Seq<(String, String)>, p: (String, String))
    ensures
        pairs_view(v.push(p)) == pairs_view(v).push((p.0@, p.1@)),
{
    assert(pairs_view(v.push(p)) =~= pairs_view(v).push((p.0@, p.1@)));
}

impl Parser {
    fn flush(&mut self, line: usize) -> (r: Result<(), Error>)
        ensures
            match r {
                Ok(()) => flush(old(self)@, line as nat) == Progress::Going(final(self)@),
                Err(e) => match flush(old(self)@, line as nat) {
                    Progress::Failed(m, l) => is_config_error(e, m, l),
                    _ => false,
                },
            },
    {
        let cur = self.current.take();
        match cur {
            None => Ok(()),
            Some(b) => {
                match b.build(line) {
                    Ok(e) => {
                        let ghost e0 = self.entries@;
                        self.entries.push(e);
                        proof {
                            lemma_entries_push(e0, e);
                        }
                        Ok(())
                    },
                    Err(e) => Err(e),
                }
            },
        }
    }

    fn handle_kv(&mut self, key: Vec<char>, value: Vec<char>, n: usize) -> (r: Result<
        (),
        Error,
    >)
        ensures
            match r {
                Ok(()) => handle_kv(old(self)@, key@, value@, n as nat) == Progress::Going(
                    final(self)@,
                ),
                Err(e) => match handle_kv(old(self)@, key@, value@, n as nat) {
                    Progress::Failed(m, l) => is_config_error(e, m, l),
                    _ => false,
                },
            },
    {
        let sec = match &self.section {
            Some(s) => s,
            None => {
                return Ok(());
            },
        };
        if same_str(sec, "settings") {
            if same_str(&key, "method") {
                match DeployMethod::parse(&value) {
                    Some(m) => {
                        self.method = m;
                        Ok(())
                    },
                    None => Err(config_error(cat3("invalid method `", &value, "`"), n)),
                }
            } else {
                Err(config_error(cat3("unknown setting `", &key, "`"), n))
            }
        } else if same_str(sec, "hooks") {
            if same_str(&key, "init") {
                self.hooks.init = Some(string_of(&value));
                Ok(())
            } else if same_str(&key, "before") {
                self.hooks.before = Some(string_of(&value));
                Ok(())
            } else if same_str(&key, "after") {
                self.hooks.after = Some(string_of(&value));
                Ok(())
            } else {
                Err(config_error(cat3("unknown hook `", &key, "`"), n))
            }
        } else if same_str(sec, "entries") {
            let mut b = match self.current.take() {
                Some(b) => b,
                None => {
                    return Err(config_error("key-value outside [[entries]]".to_string(), n));
                },
            };
            if same_str(&key, "source") {
                b.source = Some(value);
            } else if same_str(&key, "target") {
                b.target = Some(value);
            } else if same_str(&key, "method") {
                b.method = Some(value);
            } else if same_str(&key, "encrypted") {
                b.encrypted = parse_bool(&value);
            } else if same_str(&key, "directory") {
                b.directory = parse_bool(&value);
            } else if same_str(&key, "os") {
                b.os = Some(value);
            } else if same_str(&key, "permissions") {
                match parse_octal(&value) {
                    Some(p) => {
                        b.permissions = Some(p);
                    },
                    None => {
                        return Err(config_error(cat3("invalid permissions `", &value, "`"), n));
                    },
                }
            } else if same_str(&key, "before") {
                b.before = Some(value);
            } else if same_str(&key, "after") {
                b.after = Some(value);
            } else {
                return Err(config_error(cat3("unknown entry field `", &key, "`"), n));
            }
            self.current = Some(b);
            Ok(())
        } else {
            Ok(())
        }
    }

    fn step(&mut self, raw: &[char], n: usize) -> (r: Result<(), Error>)
        ensures
            match r {
                Ok(()) => step(old(self)@, raw@, n as nat) == Progress::Going(final(self)@),
                Err(e) => match step(old(self)@, raw@, n as nat) {
                    Progress::Failed(m, l) => is_config_error(e, m, l),
                    _ => false,
                },
            },
    {
        let line = clean_line_vec(raw);
        if line.len() == 0 {
            return Ok(());
        }
        let open2 = chars_of("[[");
        let close2 = chars_of("]]");
        let open1 = chars_of("[");
        let close1 = chars_of("]");
        if starts_with_exec(&line, &open2) && ends_with_exec(&line, &close2) {
            proof {
                reveal_strlit("[[");
                reveal_strlit("]]");
                assert(line@.len() >= 4) by {
                    if line@.len() < 4 {
                        assert(line@.take(2)[1] == line@[1]);
                        assert(line@.skip(line@.len() - 2)[0] == ']');
                        assert(line@.skip(line@.len() - 2)[1] == ']');
                    }
                }
            }
            self.flush(n)?;
            let inner = slice_to_vec(&line, 2, line.len() - 2);
            let name = trim_vec(&inner);
            if same_str(&name, "entries") {
                self.current = Some(EntryBuilder::new());
                self.section = Some(chars_of("entries"));
                return Ok(());
            } else {
                return Err(config_error(cat3("unknown section `[[", &name, "]]`"), n));
            }
        }
        if starts_with_exec(&line, &open1) && ends_with_exec(&line, &close1) {
            proof {
                reveal_strlit("[");
                reveal_strlit("]");
                assert(line@.len() >= 2) by {
                    if line@.len() < 2 {
                        assert(line@.take(1)[0] == line@[0]);
                        assert(line@.skip(line@.len() - 1)[0] == ']');
                    }
                }
            }
            self.flush(n)?;
            let inner = slice_to_vec(&line, 1, line.len() - 1);
            let name = trim_vec(&inner);
            self.section = Some(name);
            return Ok(());
        }
        if is_lone_quote_line(raw) {
            return Err(config_error("value is a lone quote character".to_string(), n));
        }
        match kv_vec(&line, false) {
            None => Ok(()),
            Some((key, value)) => {
                let in_vars = match &self.section {
                    Some(sec) => same_str(sec, "vars"),
                    None => false,
                };
                if in_vars {
                    let pair = (string_of(&key), string_of(&value));
                    let ghost v0 = self.vars@;
                    self.vars.push(pair);
                    proof {
                        lemma_pairs_push(v0, pair);
                    }
                    Ok(())
                } else {
                    self.handle_kv(key, value, n)
                }
            },
        }
    }
}

/// A line at which the parser meets a `key = value` whose value is a lone
/// quote character.
pub open spec fn line_lone_quote(raw: Seq<char>) -> bool {
    let line = clean_line(raw);
    line.len() > 0 && !is_table_array(line) && !is_table(line) && kv_is_lone_quote(line)
}

fn is_lone_quote_line(raw: &[char]) -> (r: bool)
    ensures
        r == line_lone_quote(raw@),
{
    let line = clean_line_vec(raw);
    if line.len() == 0 {
        return false;
    }
    let open2 = chars_of("[[");
    let close2 = chars_of("]]");
    let open1 = chars_of("[");
    let close1 = chars_of("]");
    proof {
        reveal_strlit("[[");
        reveal_strlit("]]");
        reveal_strlit("[");
        reveal_strlit("]");
    }
    if starts_with_exec(&line, &open2) && ends_with_exec(&line, &close2) {
        return false;
    }
    if starts_with_exec(&line, &open1) && ends_with_exec(&line, &close1) {
        return false;
    }
    match split_once_vec(&line, '=') {
        Some((_, rest)) => is_lone_quote(&trim_vec(&rest)),
        None => false,
    }
}

/// Parse a dotling.toml config string; the first error, with its line,
/// when the text is not a configuration.
pub fn parse_config(input: &str, path: &str) -> (r: Result<Config, Error>)
    ensures
        match r {
            Ok(c) => parse_config_spec(input@, path@) == Ok::<ConfigView, (Seq<char>, nat)>(c@),
            Err(e) => match parse_config_spec(input@, path@) {
                Err((m, l)) => is_config_error(e, m, l),
                Ok(_) => false,
            },
        },
{
    let ls = lines_vec(&chars_of(input));
    let ghost lv = seqs_of(ls@);
    let mut p = Parser {
        method: DeployMethod::Symlink,
        entries: Vec::new(),
        hooks: Hooks::none(),
        vars: Vec::new(),
        section: None,
        current: None,
    };
    assert(entries_view(p.entries@) =~= Seq::<EntryView>::empty());
    assert(pairs_view(p.vars@) =~= Seq::<(Seq<char>, Seq<char>)>::empty());
    let mut k: usize = 0;
    while k < ls.len()
        invariant
            k <= ls@.len(),
            lv == seqs_of(ls@),
            lv == lines(input@),
            parse_lines(lv, k as nat) == Progress::Going(p@),
        decreases ls@.len() - k,
    {
        proof {
            assert(lv[k as int] == ls@[k as int]@);
            lemma_parse_lines_stuck(lv, (k + 1) as nat, lv.len());
        }
        match p.step(&ls[k], k + 1) {
            Ok(()) => {},
            Err(e) => {
                return Err(e);
            },
        }
        k += 1;
    }
    match p.flush(ls.len()) {
        Ok(()) => {},
        Err(e) => {
            return Err(e);
        },
    }
    Ok(
        Config {
            settings: Settings { method: p.method },
            entries: p.entries,
            hooks: p.hooks,
            vars: p.vars,
            path: path.to_string(),
        },
    )
}

/// Once the parser has stopped, later lines change nothing.
pub proof fn lemma_parse_lines_stuck(ls: Seq<Seq<char>>, k: nat, j: nat)
    requires
        k <= j,
    ensures
        !(parse_lines(ls, k) is Going) ==> parse_lines(ls, j) == parse_lines(ls, k),
    decreases j - k,
{
    if k < j {
        lemma_parse_lines_stuck(ls, k, (j - 1) as nat);
    }
}

// ── Reading back a serialized configuration ───────────────────────

/// The parser after reading `ls` in state `st`, the lines numbered from `off + 1`.
pub open spec fn run(st: ParseState, ls: Seq<Seq<char>>, off: nat) -> Progress
    decreases ls.len(),
{
    if ls.len() == 0 {
        Progress::Going(st)
    } else {
        match run(st, ls.drop_last(), off) {
            Progress::Going(s) => step(s, ls.last(), off + ls.len()),
            other => other,
        }
    }
}

pub proof fn lemma_parse_lines_run(ls: Seq<Seq<char>>, k: nat)
    requires
        k <= ls.len(),
    ensures
        parse_lines(ls, k) == run(initial_state(), ls.take(k as int), 0),
    decreases k,
{
    if k > 0 {
        lemma_parse_lines_run(ls, (k - 1) as nat);
        assert(ls.take(k as int).drop_last() == ls.take(k - 1));
        assert(ls.take(k as int).last() == ls[k - 1]);
    } else {
        assert(ls.take(0).len() == 0);
    }
}

pub proof fn lemma_run_append(st: ParseState, a: Seq<Seq<char>>, b: Seq<Seq<char>>, off: nat)
    ensures
        run(st, a + b, off) == match run(st, a, off) {
            Progress::Going(s) => run(s, b, off + a.len()),
            other => other,
        },
    decreases b.len(),
{
    if b.len() == 0 {
        assert(a + b == a);
    } else {
        lemma_run_append(st, a, b.drop_last(), off);
        assert((a + b).drop_last() == a + b.drop_last());
        assert((a + b).last() == b.last());
    }
}

pub proof fn lemma_run_one(st: ParseState, l: Seq<char>, off: nat)
    ensures
        run(st, seq![l], off) == step(st, l, off + 1),
{
    assert(seq![l].drop_last() == Seq::<Seq<char>>::empty());
    assert(run(st, Seq::<Seq<char>>::empty(), off) == Progress::Going(st));
}

pub proof fn lemma_step_blank(st: ParseState, n: nat)
    ensures
        step(st, Seq::empty(), n) == Progress::Going(st),
{
    lemma_index_of_none(Seq::<char>::empty(), '#');
    assert(Seq::<char>::empty().take(0).len() == 0);
    assert(clean_line(Seq::empty()).len() == 0);
}

pub proof fn lemma_step_comment(st: ParseState, l: Seq<char>, n: nat)
    requires
        l.len() > 0,
        l[0] == '#',
    ensures
        step(st, l, n) == Progress::Going(st),
{
    lemma_index_of_at(l, '#', 0);
    assert(before_char(l, '#').len() == 0);
    assert(clean_line(l).len() == 0);
}

/// A value line `key = "value"` read in state `st`.
pub proof fn lemma_step_quoted(st: ParseState, key: Seq<char>, v: Seq<char>, n: nat)
    requires
        trim(key) == key,
        forall|k: int| 0 <= k < key.len() ==> key[k] != '=' && key[k] != '#' && key[k] != '\n',
        forall|k: int| 0 <= k < v.len() ==> v[k] != '#',
    ensures
        step(st, quoted_line(key, v), n) == if st.section == Some("vars"@) {
            Progress::Going(ParseState { vars: st.vars.push((key, v)), ..st })
        } else {
            handle_kv(st, key, v, n)
        },
{
    lemma_kv_quoted(key, v, false);
    reveal_strlit("]");
    reveal_strlit("]]");
    let c = clean_line(quoted_line(key, v));
    assert(c.skip(c.len() - 1)[0] == c.last());
    assert(!ends_with(c, "]"@));
    if c.len() >= 2 {
        assert(c.skip(c.len() - 2)[1] == c.last());
    }
    assert(!ends_with(c, "]]"@));
}

/// A `key = "value"` line with the value as it is, read in state `st`.
pub proof fn lemma_step_raw(st: ParseState, key: Seq<char>, v: Seq<char>, n: nat)
    requires
        trim(key) == key,
        forall|k: int| 0 <= k < key.len() ==> key[k] != '=' && key[k] != '#' && key[k] != '\n',
        forall|k: int| 0 <= k < v.len() ==> v[k] != '#' && v[k] != '\n' && v[k] != '\\',
    ensures
        step(st, raw_line(key, v), n) == if st.section == Some("vars"@) {
            Progress::Going(ParseState { vars: st.vars.push((key, v)), ..st })
        } else {
            handle_kv(st, key, v, n)
        },
        good_line(raw_line(key, v)),
{
    lemma_kv_raw(key, v, false);
    reveal_strlit("]");
    reveal_strlit("]]");
    let c = clean_line(raw_line(key, v));
    assert(c.skip(c.len() - 1)[0] == c.last());
    assert(!ends_with(c, "]"@));
    if c.len() >= 2 {
        assert(c.skip(c.len() - 2)[1] == c.last());
    }
    assert(!ends_with(c, "]]"@));
    reveal_strlit("\"");
    assert("\""@ =~= seq!['"']);
    assert(raw_line(key, v).last() == '"');
}

/// A value line `key = value` with a bare value read in state `st`.
pub proof fn lemma_step_bare(st: ParseState, key: Seq<char>, v: Seq<char>, n: nat)
    requires
        key.len() > 0,
        trim(key) == key,
        forall|k: int| 0 <= k < key.len() ==> key[k] != '=' && key[k] != '#' && key[k] != '\n',
        v.len() > 0,
        trim(v) == v,
        v[0] != '"' && v[0] != '\'',
        v.last() != ']',
        forall|k: int| 0 <= k < v.len() ==> v[k] != '#' && v[k] != '\n',
    ensures
        step(st, key + " = "@ + v, n) == if st.section == Some("vars"@) {
            Progress::Going(ParseState { vars: st.vars.push((key, v)), ..st })
        } else {
            handle_kv(st, key, v, n)
        },
{
    lemma_kv_bare(key, v, false);
    reveal_strlit("]");
    reveal_strlit("]]");
    let c = clean_line(key + " = "@ + v);
    assert(c.skip(c.len() - 1)[0] == c.last());
    assert(!ends_with(c, "]"@));
    if c.len() >= 2 {
        assert(c.skip(c.len() - 2)[1] == c.last());
    }
    assert(!ends_with(c, "]]"@));
}

/// A `[name]` line read with no open entry table.
pub proof fn lemma_step_table(st: ParseState, name: Seq<char>, n: nat)
    requires
        name.len() > 0,
        !is_ws(name[0]) && !is_ws(name.last()),
        name[0] != '[',
        forall|k: int| 0 <= k < name.len() ==> name[k] != '#',
        st.current is None,
    ensures
        step(st, "["@ + name + "]"@, n) == Progress::Going(ParseState { section: Some(name), ..st }),
{
    reveal_strlit("[");
    reveal_strlit("]");
    reveal_strlit("[[");
    reveal_strlit("]]");
    let l = "["@ + name + "]"@;
    assert(l[0] == '[');
    assert(l.last() == ']');
    assert forall|k: int| 0 <= k < l.len() implies l[k] != '#' by {
        if 0 < k < l.len() - 1 {
            assert(l[k] == name[k - 1]);
        }
    }
    lemma_index_of_none(l, '#');
    lemma_trim_noop(l);
    assert(clean_line(l) == l);
    assert(l.take(2)[1] == name[0]);
    assert(!starts_with(l, "[["@));
    assert(l.take(1) =~= "["@);
    assert(l.skip(l.len() - 1) =~= "]"@);
    assert(l.subrange(1, l.len() - 1) == name);
    lemma_trim_noop(name);
}

/// The `[[entries]]` line read in state `st`.
pub proof fn lemma_step_entries_header(st: ParseState, n: nat)
    ensures
        step(st, "[[entries]]"@, n) == match flush(st, n) {
            Progress::Going(s2) => Progress::Going(
                ParseState { current: Some(empty_builder()), section: Some("entries"@), ..s2 },
            ),
            other => other,
        },
{
    reveal_strlit("[[entries]]");
    reveal_strlit("[[");
    reveal_strlit("]]");
    reveal_strlit("entries");
    let l = "[[entries]]"@;
    lemma_index_of_none(l, '#');
    lemma_trim_noop(l);
    assert(clean_line(l) == l);
    assert(l.take(2) =~= "[["@);
    assert(l.skip(l.len() - 2) =~= "]]"@);
    assert(l.subrange(2, l.len() - 2) =~= "entries"@);
    lemma_trim_noop("entries"@);
}

/// The builder an entry is read back into.
pub open spec fn builder_of(e: EntryView) -> BuilderView {
    BuilderView {
        source: Some(e.source),
        target: Some(e.target),
        method: match e.method {
            Some(m) => Some(method_name(m)),
            None => None,
        },
        encrypted: e.encrypted,
        directory: e.directory,
        os: e.os,
        permissions: e.permissions,
        before: e.before,
        after: e.after,
    }
}

pub proof fn lemma_method_roundtrip(m: DeployMethod)
    ensures
        parse_method(method_name(m)) == Some(m),
        forall|k: int| 0 <= k < method_name(m).len() ==> {
            let c = #[trigger] method_name(m)[k];
            c != '\\' && c != '"' && c != '\n' && c != '\t' && c != '#'
        },
        method_name(m).len() > 0,
{
    reveal_strlit("symlink");
    reveal_strlit("copy");
    assert(ascii_lower("symlink"@) =~= "symlink"@);
    assert(ascii_lower("copy"@) =~= "copy"@);
}

pub proof fn lemma_entry_key_source(st: ParseState, b: BuilderView, v: Seq<char>, n: nat)
    requires
        st.section == Some("entries"@),
        st.current == Some(b),
    ensures
        handle_kv(st, "source"@, v, n) == Progress::Going(
            ParseState { current: Some(BuilderView { source: Some(v), ..b }), ..st },
        ),
{
    reveal_strlit("settings");
    reveal_strlit("hooks");
    reveal_strlit("entries");
    reveal_strlit("source");
    assert("entries"@ != "settings"@) by {
        assert("entries"@.len() != "settings"@.len());
    }
    assert("entries"@ != "hooks"@) by {
        assert("entries"@.len() != "hooks"@.len());
    }
}

pub proof fn lemma_entry_key_target(st: ParseState, b: BuilderView, v: Seq<char>, n: nat)
    requires
        st.section == Some("entries"@),
        st.current == Some(b),
    ensures
        handle_kv(st, "target"@, v, n) == Progress::Going(
            ParseState { current: Some(BuilderView { target: Some(v), ..b }), ..st },
        ),
{
    reveal_strlit("settings");
    reveal_strlit("hooks");
    reveal_strlit("entries");
    reveal_strlit("source");
    reveal_strlit("target");
    assert("entries"@ != "settings"@) by {
        assert("entries"@.len() != "settings"@.len());
    }
    assert("entries"@ != "hooks"@) by {
        assert("entries"@.len() != "hooks"@.len());
    }
    assert("target"@ != "source"@) by {
        assert("target"@.len() != "source"@.len() || "target"@[0] != "source"@[0]);
    }
}

pub proof fn lemma_entry_key_method(st: ParseState, b: BuilderView, v: Seq<char>, n: nat)
    requires
        st.section == Some("entries"@),
        st.current == Some(b),
    ensures
        handle_kv(st, "method"@, v, n) == Progress::Going(
            ParseState { current: Some(BuilderView { method: Some(v), ..b }), ..st },
        ),
{
    reveal_strlit("settings");
    reveal_strlit("hooks");
    reveal_strlit("entries");
    reveal_strlit("source");
    reveal_strlit("target");
    reveal_strlit("method");
    assert("entries"@ != "settings"@) by {
        assert("entries"@.len() != "settings"@.len());
    }
    assert("entries"@ != "hooks"@) by {
        assert("entries"@.len() != "hooks"@.len());
    }
    assert("method"@ != "source"@) by {
        assert("method"@.len() != "source"@.len() || "method"@[0] != "source"@[0]);
    }
    assert("method"@ != "target"@) by {
        assert("method"@.len() != "target"@.len() || "method"@[0] != "target"@[0]);
    }
}

pub proof fn lemma_entry_key_encrypted(st: ParseState, b: BuilderView, v: Seq<char>, n: nat)
    requires
        st.section == Some("entries"@),
        st.current == Some(b),
    ensures
        handle_kv(st, "encrypted"@, v, n) == Progress::Going(
            ParseState { current: Some(BuilderView { encrypted: parse_bool_spec(v), ..b }), ..st },
        ),
{
    reveal_strlit("settings");
    reveal_strlit("hooks");
    reveal_strlit("entries");
    reveal_strlit("source");
    reveal_strlit("target");
    reveal_strlit("method");
    reveal_strlit("encrypted");
    assert("entries"@ != "settings"@) by {
        assert("entries"@.len() != "settings"@.len());
    }
    assert("entries"@ != "hooks"@) by {
        assert("entries"@.len() != "hooks"@.len());
    }
    assert("encrypted"@ != "source"@) by {
        assert("encrypted"@.len() != "source"@.len() || "encrypted"@[0] != "source"@[0]);
    }
    assert("encrypted"@ != "target"@) by {
        assert("encrypted"@.len() != "target"@.len() || "encrypted"@[0] != "target"@[0]);
    }
    assert("encrypted"@ != "method"@) by {
        assert("encrypted"@.len() != "method"@.len() || "encrypted"@[0] != "method"@[0]);
    }
}

pub proof fn lemma_entry_key_directory(st: ParseState, b: BuilderView, v: Seq<char>, n: nat)
    requires
        st.section == Some("entries"@),
        st.current == Some(b),
    ensures
        handle_kv(st, "directory"@, v, n) == Progress::Going(
            ParseState { current: Some(BuilderView { directory: parse_bool_spec(v), ..b }), ..st },
        ),
{
    reveal_strlit("settings");
    reveal_strlit("hooks");
    reveal_strlit("entries");
    reveal_strlit("source");
    reveal_strlit("target");
    reveal_strlit("method");
    reveal_strlit("encrypted");
    reveal_strlit("directory");
    assert("entries"@ != "settings"@) by {
        assert("entries"@.len() != "settings"@.len());
    }
    assert("entries"@ != "hooks"@) by {
        assert("entries"@.len() != "hooks"@.len());
    }
    assert("directory"@ != "source"@) by {
        assert("directory"@.len() != "source"@.len() || "directory"@[0] != "source"@[0]);
    }
    assert("directory"@ != "target"@) by {
        assert("directory"@.len() != "target"@.len() || "directory"@[0] != "target"@[0]);
    }
    assert("directory"@ != "method"@) by {
        assert("directory"@.len() != "method"@.len() || "directory"@[0] != "method"@[0]);
    }
    assert("directory"@ != "encrypted"@) by {
        assert("directory"@.len() != "encrypted"@.len() || "directory"@[0] != "encrypted"@[0]);
    }
}

pub proof fn lemma_entry_key_os(st: ParseState, b: BuilderView, v: Seq<char>, n: nat)
    requires
        st.section == Some("entries"@),
        st.current == Some(b),
    ensures
        handle_kv(st, "os"@, v, n) == Progress::Going(
            ParseState { current: Some(BuilderView { os: Some(v), ..b }), ..st },
        ),
{
    reveal_strlit("settings");
    reveal_strlit("hooks");
    reveal_strlit("entries");
    reveal_strlit("source");
    reveal_strlit("target");
    reveal_strlit("method");
    reveal_strlit("encrypted");
    reveal_strlit("directory");
    reveal_strlit("os");
    assert("entries"@ != "settings"@) by {
        assert("entries"@.len() != "settings"@.len());
    }
    assert("entries"@ != "hooks"@) by {
        assert("entries"@.len() != "hooks"@.len());
    }
    assert("os"@ != "source"@) by {
        assert("os"@.len() != "source"@.len() || "os"@[0] != "source"@[0]);
    }
    assert("os"@ != "target"@) by {
        assert("os"@.len() != "target"@.len() || "os"@[0] != "target"@[0]);
    }
    assert("os"@ != "method"@) by {
        assert("os"@.len() != "method"@.len() || "os"@[0] != "method"@[0]);
    }
    assert("os"@ != "encrypted"@) by {
        assert("os"@.len() != "encrypted"@.len() || "os"@[0] != "encrypted"@[0]);
    }
    assert("os"@ != "directory"@) by {
        assert("os"@.len() != "directory"@.len() || "os"@[0] != "directory"@[0]);
    }
}

pub proof fn lemma_entry_key_permissions(st: ParseState, b: BuilderView, v: Seq<char>, n: nat)
    requires
        st.section == Some("entries"@),
        st.current == Some(b),
        octal_value(v) is Some,
    ensures
        handle_kv(st, "permissions"@, v, n) == Progress::Going(
            ParseState { current: Some(BuilderView { permissions: octal_value(v), ..b }), ..st },
        ),
{
    reveal_strlit("settings");
    reveal_strlit("hooks");
    reveal_strlit("entries");
    reveal_strlit("source");
    reveal_strlit("target");
    reveal_strlit("method");
    reveal_strlit("encrypted");
    reveal_strlit("directory");
    reveal_strlit("os");
    reveal_strlit("permissions");
    assert("entries"@ != "settings"@) by {
        assert("entries"@.len() != "settings"@.len());
    }
    assert("entries"@ != "hooks"@) by {
        assert("entries"@.len() != "hooks"@.len());
    }
    assert("permissions"@ != "source"@) by {
        assert("permissions"@.len() != "source"@.len() || "permissions"@[0] != "source"@[0]);
    }
    assert("permissions"@ != "target"@) by {
        assert("permissions"@.len() != "target"@.len() || "permissions"@[0] != "target"@[0]);
    }
    assert("permissions"@ != "method"@) by {
        assert("permissions"@.len() != "method"@.len() || "permissions"@[0] != "method"@[0]);
    }
    assert("permissions"@ != "encrypted"@) by {
        assert("permissions"@.len() != "encrypted"@.len() || "permissions"@[0] != "encrypted"@[0]);
    }
    assert("permissions"@ != "directory"@) by {
        assert("permissions"@.len() != "directory"@.len() || "permissions"@[0] != "directory"@[0]);
    }
    assert("permissions"@ != "os"@) by {
        assert("permissions"@.len() != "os"@.len() || "permissions"@[0] != "os"@[0]);
    }
}

pub proof fn lemma_entry_key_before(st: ParseState, b: BuilderView, v: Seq<char>, n: nat)
    requires
        st.section == Some("entries"@),
        st.current == Some(b),
    ensures
        handle_kv(st, "before"@, v, n) == Progress::Going(
            ParseState { current: Some(BuilderView { before: Some(v), ..b }), ..st },
        ),
{
    reveal_strlit("settings");
    reveal_strlit("hooks");
    reveal_strlit("entries");
    reveal_strlit("source");
    reveal_strlit("target");
    reveal_strlit("method");
    reveal_strlit("encrypted");
    reveal_strlit("directory");
    reveal_strlit("os");
    reveal_strlit("permissions");
    reveal_strlit("before");
    assert("entries"@ != "settings"@) by {
        assert("entries"@.len() != "settings"@.len());
    }
    assert("entries"@ != "hooks"@) by {
        assert("entries"@.len() != "hooks"@.len());
    }
    assert("before"@ != "source"@) by {
        assert("before"@.len() != "source"@.len() || "before"@[0] != "source"@[0]);
    }
    assert("before"@ != "target"@) by {
        assert("before"@.len() != "target"@.len() || "before"@[0] != "target"@[0]);
    }
    assert("before"@ != "method"@) by {
        assert("before"@.len() != "method"@.len() || "before"@[0] != "method"@[0]);
    }
    assert("before"@ != "encrypted"@) by {
        assert("before"@.len() != "encrypted"@.len() || "before"@[0] != "encrypted"@[0]);
    }
    assert("before"@ != "directory"@) by {
        assert("before"@.len() != "directory"@.len() || "before"@[0] != "directory"@[0]);
    }
    assert("before"@ != "os"@) by {
        assert("before"@.len() != "os"@.len() || "before"@[0] != "os"@[0]);
    }
    assert("before"@ != "permissions"@) by {
        assert("before"@.len() != "permissions"@.len() || "before"@[0] != "permissions"@[0]);
    }
}

pub proof fn lemma_entry_key_after(st: ParseState, b: BuilderView, v: Seq<char>, n: nat)
    requires
        st.section == Some("entries"@),
        st.current == Some(b),
    ensures
        handle_kv(st, "after"@, v, n) == Progress::Going(
            ParseState { current: Some(BuilderView { after: Some(v), ..b }), ..st },
        ),
{
    reveal_strlit("settings");
    reveal_strlit("hooks");
    reveal_strlit("entries");
    reveal_strlit("source");
    reveal_strlit("target");
    reveal_strlit("method");
    reveal_strlit("encrypted");
    reveal_strlit("directory");
    reveal_strlit("os");
    reveal_strlit("permissions");
    reveal_strlit("before");
    reveal_strlit("after");
    assert("entries"@ != "settings"@) by {
        assert("entries"@.len() != "settings"@.len());
    }
    assert("entries"@ != "hooks"@) by {
        assert("entries"@.len() != "hooks"@.len());
    }
    assert("after"@ != "source"@) by {
        assert("after"@.len() != "source"@.len() || "after"@[0] != "source"@[0]);
    }
    assert("after"@ != "target"@) by {
        assert("after"@.len() != "target"@.len() || "after"@[0] != "target"@[0]);
    }
    assert("after"@ != "method"@) by {
        assert("after"@.len() != "method"@.len() || "after"@[0] != "method"@[0]);
    }
    assert("after"@ != "encrypted"@) by {
        assert("after"@.len() != "encrypted"@.len() || "after"@[0] != "encrypted"@[0]);
    }
    assert("after"@ != "directory"@) by {
        assert("after"@.len() != "directory"@.len() || "after"@[0] != "directory"@[0]);
    }
    assert("after"@ != "os"@) by {
        assert("after"@.len() != "os"@.len() || "after"@[0] != "os"@[0]);
    }
    assert("after"@ != "permissions"@) by {
        assert("after"@.len() != "permissions"@.len() || "after"@[0] != "permissions"@[0]);
    }
    assert("after"@ != "before"@) by {
        assert("after"@.len() != "before"@.len() || "after"@[0] != "before"@[0]);
    }
}

pub proof fn lemma_run_cons(st: ParseState, l: Seq<char>, rest: Seq<Seq<char>>, off: nat)
    ensures
        run(st, seq![l] + rest, off) == match step(st, l, off + 1) {
            Progress::Going(s) => run(s, rest, off + 1),
            other => other,
        },
{
    lemma_run_append(st, seq![l], rest, off);
    lemma_run_one(st, l, off);
}

pub proof fn lemma_run_push(st: ParseState, a: Seq<Seq<char>>, l: Seq<char>, off: nat)
    ensures
        run(st, a.push(l), off) == match run(st, a, off) {
            Progress::Going(s) => step(s, l, off + a.len() + 1),
            other => other,
        },
{
    assert(a.push(l).drop_last() == a);
}

/// A word of lowercase letters and underscores.
pub open spec fn is_word(w: Seq<char>) -> bool {
    w.len() > 0 && forall|k: int| 0 <= k < w.len() ==> ('a' <= #[trigger] w[k] <= 'z' || w[k] == '_')
}

pub proof fn lemma_word(w: Seq<char>)
    requires
        is_word(w),
    ensures
        trim(w) == w,
        !is_ws(w[0]) && !is_ws(w.last()),
        w[0] != '[',
        forall|k: int| 0 <= k < w.len() ==> w[k] != '=' && w[k] != '#' && w[k] != '\n',
{
    assert('a' <= w[0] <= 'z' || w[0] == '_');
    assert('a' <= w.last() <= 'z' || w.last() == '_');
    lemma_trim_noop(w);
}

pub proof fn lemma_words()
    ensures
        is_word("settings"@),
        is_word("hooks"@),
        is_word("vars"@),
        is_word("method"@),
        is_word("init"@),
        is_word("before"@),
        is_word("after"@),
        is_word("source"@),
        is_word("target"@),
        is_word("encrypted"@),
        is_word("directory"@),
        is_word("os"@),
        is_word("permissions"@),
        is_word("true"@),
        "settings"@ != "vars"@,
        "hooks"@ != "vars"@,
        "hooks"@ != "settings"@,
        "entries"@ != "vars"@,
        "init"@ != "before"@,
        "init"@ != "after"@,
        "before"@ != "after"@,
{
    reveal_strlit("settings");
    reveal_strlit("hooks");
    reveal_strlit("vars");
    reveal_strlit("method");
    reveal_strlit("init");
    reveal_strlit("before");
    reveal_strlit("after");
    reveal_strlit("source");
    reveal_strlit("target");
    reveal_strlit("encrypted");
    reveal_strlit("directory");
    reveal_strlit("os");
    reveal_strlit("permissions");
    reveal_strlit("true");
    reveal_strlit("entries");
    assert("settings"@.len() != "vars"@.len());
    assert("hooks"@.len() != "vars"@.len());
    assert("hooks"@.len() != "settings"@.len());
    assert("entries"@.len() != "vars"@.len());
    assert("init"@.len() != "before"@.len());
    assert("init"@.len() != "after"@.len());
    assert("before"@.len() != "after"@.len());
}

/// No `#` in a text.
pub open spec fn no_hash(s: Seq<char>) -> bool {
    forall|k: int| 0 <= k < s.len() ==> s[k] != '#'
}

pub open spec fn opt_no_hash(o: Option<Seq<char>>) -> bool {
    match o {
        Some(s) => no_hash(s),
        None => true,
    }
}

/// Text written without escapes: no backslash, quote, newline, tab or `#`.
pub open spec fn plain_text(s: Seq<char>) -> bool {
    forall|k: int|
        0 <= k < s.len() ==> s[k] != '\\' && s[k] != '"' && s[k] != '\n' && s[k] != '\t' && s[k]
            != '#'
}

/// An `os` value, written as it is, that reads back as written: no
/// backslash, `#` or newline.
pub open spec fn os_text(s: Seq<char>) -> bool {
    forall|k: int| 0 <= k < s.len() ==> s[k] != '\\' && s[k] != '#' && s[k] != '\n'
}

/// A variable name that reads back as written.
pub open spec fn key_text(k: Seq<char>) -> bool {
    trim(k) == k && forall|i: int| 0 <= i < k.len() ==> k[i] != '=' && k[i] != '#' && k[i] != '\n'
}

/// Variables that read back as written.
pub open spec fn vars_writable(vs: Seq<(Seq<char>, Seq<char>)>) -> bool {
    forall|i: int| 0 <= i < vs.len() ==> key_text(#[trigger] vs[i].0) && no_hash(vs[i].1)
}

/// An entry that reads back as written.
pub open spec fn entry_writable(e: EntryView) -> bool {
    &&& no_hash(e.source)
    &&& no_hash(e.target)
    &&& opt_no_hash(e.before)
    &&& opt_no_hash(e.after)
    &&& match e.os {
        Some(os) => os_text(os),
        None => true,
    }
    &&& e.template == is_template_source(e.source)
}

/// A configuration that reads back as written.
pub open spec fn config_writable(c: ConfigView) -> bool {
    &&& opt_no_hash(c.hooks.init)
    &&& opt_no_hash(c.hooks.before)
    &&& opt_no_hash(c.hooks.after)
    &&& vars_writable(c.vars)
    &&& forall|i: int| 0 <= i < c.entries.len() ==> entry_writable(#[trigger] c.entries[i])
}

pub proof fn lemma_plain_line(key: Seq<char>, v: Seq<char>)
    requires
        plain_text(v),
    ensures
        raw_line(key, v) == quoted_line(key, v),
        no_hash(v),
{
    lemma_escape_plain(v);
}

pub proof fn lemma_run_header()
    ensures
        run(initial_state(), seq![header_line(), Seq::empty()], 0) == Progress::Going(initial_state()),
{
    reveal_strlit("# dotling.toml — managed by dotling, safe to hand-edit");
    assert(seq![header_line(), Seq::<char>::empty()] == seq![header_line()] + seq![Seq::<char>::empty()]);
    lemma_run_cons(initial_state(), header_line(), seq![Seq::empty()], 0);
    lemma_step_comment(initial_state(), header_line(), 1);
    lemma_run_one(initial_state(), Seq::empty(), 1);
    lemma_step_blank(initial_state(), 2);
}

pub proof fn lemma_run_table(st: ParseState, name: Seq<char>, off: nat)
    requires
        is_word(name),
        st.current is None,
    ensures
        step(st, "["@ + name + "]"@, off) == Progress::Going(ParseState { section: Some(name), ..st }),
{
    lemma_word(name);
    lemma_step_table(st, name, off);
}

pub proof fn lemma_run_settings(st: ParseState, m: DeployMethod, off: nat)
    requires
        st.current is None,
    ensures
        run(st, settings_lines(m), off) == Progress::Going(
            if m != DeployMethod::Symlink {
                ParseState { method: m, section: Some("settings"@), ..st }
            } else {
                st
            },
        ),
{
    if m != DeployMethod::Symlink {
        lemma_words();
        reveal_strlit("[settings]");
        reveal_strlit("[");
        reveal_strlit("]");
        reveal_strlit("settings");
        assert("[settings]"@ =~= "["@ + "settings"@ + "]"@);
        let s1 = ParseState { section: Some("settings"@), ..st };
        lemma_run_table(st, "settings"@, off + 1);
        let name = method_name(m);
        lemma_method_roundtrip(m);
        lemma_plain_line("method"@, name);
        lemma_word("method"@);
        lemma_step_quoted(s1, "method"@, name, off + 2);
        let s2 = ParseState { method: m, ..s1 };
        assert(handle_kv(s1, "method"@, name, off + 2) == Progress::Going(s2));
        lemma_step_blank(s2, off + 3);
        lemma_run_cons(st, "[settings]"@, seq![raw_line("method"@, name), Seq::empty()], off);
        lemma_run_cons(s1, raw_line("method"@, name), seq![Seq::empty()], off + 1);
        lemma_run_one(s2, Seq::empty(), off + 2);
        assert(settings_lines(m) == seq!["[settings]"@] + seq![raw_line("method"@, name), Seq::empty()]);
        assert(seq![raw_line("method"@, name), Seq::<char>::empty()] == seq![raw_line("method"@, name)]
            + seq![Seq::<char>::empty()]);
    }
}

/// An optional hook line read in the `[hooks]` section.
pub proof fn lemma_run_hook_line(st: ParseState, key: Seq<char>, o: Option<Seq<char>>, off: nat)
    requires
        st.section == Some("hooks"@),
        key == "init"@ || key == "before"@ || key == "after"@,
        opt_no_hash(o),
    ensures
        run(st, opt_line(key, o), off) == Progress::Going(
            match o {
                Some(v) => if key == "init"@ {
                    ParseState { hooks: HooksView { init: Some(v), ..st.hooks }, ..st }
                } else if key == "before"@ {
                    ParseState { hooks: HooksView { before: Some(v), ..st.hooks }, ..st }
                } else {
                    ParseState { hooks: HooksView { after: Some(v), ..st.hooks }, ..st }
                },
                None => st,
            },
        ),
{
    lemma_words();
    match o {
        Some(v) => {
            lemma_word(key);
            lemma_step_quoted(st, key, v, off + 1);
            lemma_run_one(st, quoted_line(key, v), off);
        },
        None => {},
    }
}

pub proof fn lemma_run_hook_lines(s1: ParseState, h: HooksView, off: nat)
    requires
        s1.section == Some("hooks"@),
        opt_no_hash(h.init) && opt_no_hash(h.before) && opt_no_hash(h.after),
        s1.hooks == (HooksView { init: None, before: None, after: None }),
    ensures
        run(
            s1,
            opt_line("init"@, h.init) + opt_line("before"@, h.before) + opt_line("after"@, h.after),
            off,
        ) == Progress::Going(ParseState { hooks: h, ..s1 }),
{
    lemma_words();
    let a = opt_line("init"@, h.init);
    let b = opt_line("before"@, h.before);
    let c = opt_line("after"@, h.after);
    lemma_run_hook_line(s1, "init"@, h.init, off);
    let s2 = match h.init {
        Some(v) => ParseState { hooks: HooksView { init: Some(v), ..s1.hooks }, ..s1 },
        None => s1,
    };
    lemma_run_hook_line(s2, "before"@, h.before, off + a.len());
    let s3 = match h.before {
        Some(v) => ParseState { hooks: HooksView { before: Some(v), ..s2.hooks }, ..s2 },
        None => s2,
    };
    lemma_run_hook_line(s3, "after"@, h.after, off + a.len() + b.len());
    let s4 = match h.after {
        Some(v) => ParseState { hooks: HooksView { after: Some(v), ..s3.hooks }, ..s3 },
        None => s3,
    };
    assert(s4 == ParseState { hooks: h, ..s1 });
    lemma_run_append(s1, a + b, c, off);
    lemma_run_append(s1, a, b, off);
}

pub proof fn lemma_run_hooks(st: ParseState, h: HooksView, off: nat)
    requires
        st.current is None,
        st.hooks == (HooksView { init: None, before: None, after: None }),
        opt_no_hash(h.init) && opt_no_hash(h.before) && opt_no_hash(h.after),
    ensures
        run(st, hooks_lines(h), off) == Progress::Going(
            if h.init is Some || h.before is Some || h.after is Some {
                ParseState { hooks: h, section: Some("hooks"@), ..st }
            } else {
                st
            },
        ),
{
    if h.init is Some || h.before is Some || h.after is Some {
        lemma_words();
        reveal_strlit("[hooks]");
        reveal_strlit("[");
        reveal_strlit("]");
        reveal_strlit("hooks");
        assert("[hooks]"@ =~= "["@ + "hooks"@ + "]"@);
        let s1 = ParseState { section: Some("hooks"@), ..st };
        lemma_run_table(st, "hooks"@, off + 1);
        let body = opt_line("init"@, h.init) + opt_line("before"@, h.before) + opt_line(
            "after"@,
            h.after,
        );
        lemma_run_hook_lines(s1, h, off + 1);
        let s4 = ParseState { hooks: h, section: Some("hooks"@), ..st };
        lemma_step_blank(s4, off + 2 + body.len());
        lemma_run_cons(st, "[hooks]"@, body + seq![Seq::empty()], off);
        lemma_run_append(s1, body, seq![Seq::empty()], off + 1);
        lemma_run_one(s4, Seq::empty(), off + 1 + body.len());
        assert(hooks_lines(h) == seq!["[hooks]"@] + (body + seq![Seq::<char>::empty()]));
    }
}

pub proof fn lemma_run_pairs(st: ParseState, vs: Seq<(Seq<char>, Seq<char>)>, off: nat)
    requires
        st.section == Some("vars"@),
        vars_writable(vs),
    ensures
        run(st, pair_lines(vs), off) == Progress::Going(ParseState { vars: st.vars + vs, ..st }),
    decreases vs.len(),
{
    if vs.len() == 0 {
        assert(st.vars + vs =~= st.vars);
        assert(ParseState { vars: st.vars + vs, ..st } == st);
    } else {
        let prev = vs.drop_last();
        assert(vars_writable(prev)) by {
            assert forall|i: int| 0 <= i < prev.len() implies key_text(#[trigger] prev[i].0) && no_hash(prev[i].1) by {
                assert(prev[i] == vs[i]);
            }
        }
        lemma_run_pairs(st, prev, off);
        let s1 = ParseState { vars: st.vars + prev, ..st };
        let (k, v) = vs.last();
        assert(key_text(vs[vs.len() - 1].0));
        lemma_run_push(st, pair_lines(prev), quoted_line(k, v), off);
        lemma_step_quoted(s1, k, v, off + pair_lines(prev).len() + 1);
        assert(s1.vars.push((k, v)) =~= st.vars + vs);
    }
}

pub proof fn lemma_run_vars(st: ParseState, vs: Seq<(Seq<char>, Seq<char>)>, off: nat)
    requires
        st.current is None,
        st.vars == Seq::<(Seq<char>, Seq<char>)>::empty(),
        vars_writable(vs),
    ensures
        run(st, vars_lines(vs), off) == Progress::Going(
            if vs.len() > 0 {
                ParseState { vars: vs, section: Some("vars"@), ..st }
            } else {
                st
            },
        ),
{
    if vs.len() > 0 {
        lemma_words();
        reveal_strlit("[vars]");
        reveal_strlit("[");
        reveal_strlit("]");
        reveal_strlit("vars");
        reveal_strlit("# Shared defaults — override in ~/.dotling/vars.toml on each machine");
        assert("[vars]"@ =~= "["@ + "vars"@ + "]"@);
        let s1 = ParseState { section: Some("vars"@), ..st };
        lemma_run_table(st, "vars"@, off + 1);
        lemma_step_comment(s1, vars_comment_line(), off + 2);
        lemma_run_pairs(s1, vs, off + 2);
        let ps = pair_lines(vs);
        let s2 = ParseState { vars: vs, section: Some("vars"@), ..st };
        assert(s1.vars + vs == vs);
        lemma_step_blank(s2, off + 3 + ps.len());
        lemma_run_cons(st, "[vars]"@, seq![vars_comment_line()] + ps + seq![Seq::empty()], off);
        lemma_run_cons(s1, vars_comment_line(), ps + seq![Seq::empty()], off + 1);
        lemma_run_append(s1, ps, seq![Seq::empty()], off + 2);
        lemma_run_one(s2, Seq::empty(), off + 2 + ps.len());
        assert(vars_lines(vs) == seq!["[vars]"@] + (seq![vars_comment_line()] + (ps + seq![Seq::<char>::empty()])));
        assert(seq![vars_comment_line()] + ps + seq![Seq::<char>::empty()] == seq![vars_comment_line()] + (ps + seq![Seq::<char>::empty()]));
    }
}

pub proof fn lemma_octal_digits(n: nat)
    ensures
        octal_num(octal_digits(n)) == n,
        all_octal(octal_digits(n)),
        octal_digits(n).len() > 0,
    decreases n,
{
    let d = octal_digits(n);
    if n < 8 {
        assert(d.drop_last().len() == 0);
        assert(octal_num(d.drop_last()) == 0);
        assert(digit_char(n) as u32 == n + 48);
    } else {
        vstd::arithmetic::div_mod::lemma_fundamental_div_mod(n as int, 8);
        lemma_octal_digits(n / 8);
        assert(d.drop_last() == octal_digits(n / 8));
        assert(d.last() == digit_char(n % 8));
        assert(digit_char(n % 8) as u32 == n % 8 + 48);
        assert(all_octal(d)) by {
            assert forall|k: int| 0 <= k < d.len() implies is_octal_digit(#[trigger] d[k]) by {
                if k < d.len() - 1 {
                    assert(d[k] == octal_digits(n / 8)[k]);
                }
            }
        }
    }
}

pub proof fn lemma_octal_zeros(z: nat, d: Seq<char>)
    ensures
        octal_num(Seq::new(z, |i: int| '0') + d) == octal_num(d),
    decreases d.len(),
{
    let zs = Seq::new(z, |i: int| '0');
    if d.len() == 0 {
        assert(zs + d == zs);
        lemma_octal_zero_run(z);
    } else {
        lemma_octal_zeros(z, d.drop_last());
        assert((zs + d).drop_last() == zs + d.drop_last());
        assert((zs + d).last() == d.last());
    }
}

pub proof fn lemma_octal_zero_run(z: nat)
    ensures
        octal_num(Seq::new(z, |i: int| '0')) == 0,
    decreases z,
{
    if z > 0 {
        lemma_octal_zero_run((z - 1) as nat);
        assert(Seq::new(z, |i: int| '0').drop_last() == Seq::new((z - 1) as nat, |i: int| '0'));
    }
}

/// `{:04o}` text reads back as the same number, and needs no escapes.
pub proof fn lemma_octal4_roundtrip(p: u32)
    ensures
        octal_value(octal4(p as nat)) == Some(p),
        plain_text(octal4(p as nat)),
{
    let d = octal_digits(p as nat);
    lemma_octal_digits(p as nat);
    let o = octal4(p as nat);
    if d.len() < 4 {
        let z = (4 - d.len()) as nat;
        lemma_octal_zeros(z, d);
        assert forall|k: int| 0 <= k < o.len() implies is_octal_digit(#[trigger] o[k]) by {
            if k >= z {
                assert(o[k] == d[k - z]);
            }
        }
    }
    assert(o[0] != '+') by {
        assert(is_octal_digit(o[0]));
    }
    assert(unsigned_digits(o) == o);
    assert forall|k: int| 0 <= k < o.len() implies o[k] != '\\' && o[k] != '"' && o[k] != '\n'
        && o[k] != '\t' && o[k] != '#' by {
        assert(is_octal_digit(o[k]));
    }
}

/// The builder of an entry builds that entry again.
pub proof fn lemma_build_roundtrip(e: EntryView, n: nat)
    requires
        e.template == is_template_source(e.source),
    ensures
        build_entry(builder_of(e), n) == Ok::<EntryView, (Seq<char>, nat)>(e),
{
    match e.method {
        Some(m) => lemma_method_roundtrip(m),
        None => {},
    }
}

pub open spec fn head_builder(e: EntryView) -> BuilderView {
    BuilderView {
        source: Some(e.source),
        target: Some(e.target),
        method: match e.method {
            Some(m) => Some(method_name(m)),
            None => None,
        },
        encrypted: e.encrypted,
        directory: e.directory,
        ..empty_builder()
    }
}

pub proof fn lemma_flag_line(key: Seq<char>)
    requires
        key == "encrypted"@ || key == "directory"@,
    ensures
        "encrypted = true"@ == "encrypted"@ + " = "@ + "true"@,
        "directory = true"@ == "directory"@ + " = "@ + "true"@,
        parse_bool_spec("true"@),
{
    reveal_strlit("encrypted = true");
    reveal_strlit("directory = true");
    reveal_strlit("encrypted");
    reveal_strlit("directory");
    reveal_strlit(" = ");
    reveal_strlit("true");
    assert("encrypted = true"@ =~= "encrypted"@ + " = "@ + "true"@);
    assert("directory = true"@ =~= "directory"@ + " = "@ + "true"@);
    assert(ascii_lower("true"@) =~= "true"@);
}

/// A `key = "value"` line of an entry's table sets that field.
pub proof fn lemma_run_entry_line(x: ParseState, key: Seq<char>, v: Seq<char>, off: nat)
    requires
        x.section == Some("entries"@),
        x.current is Some,
        is_word(key),
        no_hash(v),
    ensures
        run(x, seq![quoted_line(key, v)], off) == handle_kv(x, key, v, off + 1),
{
    lemma_words();
    lemma_word(key);
    lemma_step_quoted(x, key, v, off + 1);
    lemma_run_one(x, quoted_line(key, v), off);
}

pub proof fn lemma_run_source_target(x: ParseState, e: EntryView, off: nat)
    requires
        x.section == Some("entries"@),
        x.current == Some(empty_builder()),
        entry_writable(e),
    ensures
        run(x, seq![quoted_line("source"@, e.source), quoted_line("target"@, e.target)], off)
            == Progress::Going(
            ParseState {
                current: Some(
                    BuilderView { source: Some(e.source), target: Some(e.target), ..empty_builder() },
                ),
                ..x
            },
        ),
{
    lemma_words();
    let b0 = empty_builder();
    let l1 = quoted_line("source"@, e.source);
    let l2 = quoted_line("target"@, e.target);
    lemma_run_entry_line(x, "source"@, e.source, off);
    lemma_entry_key_source(x, b0, e.source, off + 1);
    let b1 = BuilderView { source: Some(e.source), ..b0 };
    let x1 = ParseState { current: Some(b1), ..x };
    lemma_run_entry_line(x1, "target"@, e.target, off + 1);
    lemma_entry_key_target(x1, b1, e.target, off + 2);
    lemma_run_append(x, seq![l1], seq![l2], off);
    assert(seq![l1] + seq![l2] == seq![l1, l2]);
}

pub proof fn lemma_run_method(x: ParseState, b: BuilderView, m: Option<DeployMethod>, off: nat)
    requires
        x.section == Some("entries"@),
        x.current == Some(b),
    ensures
        run(x, method_lines(m), off) == Progress::Going(
            ParseState {
                current: Some(
                    match m {
                        Some(mm) => BuilderView { method: Some(method_name(mm)), ..b },
                        None => b,
                    },
                ),
                ..x
            },
        ),
{
    lemma_words();
    match m {
        Some(mm) => {
            lemma_method_roundtrip(mm);
            lemma_plain_line("method"@, method_name(mm));
            lemma_run_entry_line(x, "method"@, method_name(mm), off);
            lemma_entry_key_method(x, b, method_name(mm), off + 1);
        },
        None => {
            assert(ParseState { current: Some(b), ..x } == x);
        },
    }
}

pub proof fn lemma_run_flags(x: ParseState, b: BuilderView, e: EntryView, off: nat)
    requires
        x.section == Some("entries"@),
        x.current == Some(b),
    ensures
        run(
            x,
            flag_line(e.encrypted, "encrypted = true"@) + flag_line(e.directory, "directory = true"@),
            off,
        ) == Progress::Going(
            ParseState {
                current: Some(BuilderView { encrypted: e.encrypted || b.encrypted, directory: e.directory || b.directory, ..b }),
                ..x
            },
        ),
{
    lemma_words();
    lemma_word("encrypted"@);
    lemma_word("directory"@);
    lemma_word("true"@);
    let el = flag_line(e.encrypted, "encrypted = true"@);
    let dl = flag_line(e.directory, "directory = true"@);
    let b1 = BuilderView { encrypted: e.encrypted || b.encrypted, ..b };
    let x1 = ParseState { current: Some(b1), ..x };
    if e.encrypted {
        lemma_flag_line("encrypted"@);
        lemma_step_bare(x, "encrypted"@, "true"@, off + 1);
        lemma_entry_key_encrypted(x, b, "true"@, off + 1);
        lemma_run_one(x, "encrypted = true"@, off);
    } else {
        assert(b1 == b);
        assert(x1 == x);
    }
    let b2 = BuilderView { directory: e.directory || b.directory, ..b1 };
    if e.directory {
        lemma_flag_line("directory"@);
        lemma_step_bare(x1, "directory"@, "true"@, off + 1 + el.len());
        lemma_entry_key_directory(x1, b1, "true"@, off + 1 + el.len());
        lemma_run_one(x1, "directory = true"@, off + el.len());
    } else {
        assert(b2 == b1);
    }
    lemma_run_append(x, el, dl, off);
}

pub proof fn lemma_run_entry_head(x: ParseState, e: EntryView, off: nat)
    requires
        x.section == Some("entries"@),
        x.current == Some(empty_builder()),
        entry_writable(e),
    ensures
        run(x, entry_head(e).drop_first(), off) == Progress::Going(
            ParseState { current: Some(head_builder(e)), ..x },
        ),
{
    let st = seq![quoted_line("source"@, e.source), quoted_line("target"@, e.target)];
    let ml = method_lines(e.method);
    let fl = flag_line(e.encrypted, "encrypted = true"@) + flag_line(e.directory, "directory = true"@);
    lemma_run_source_target(x, e, off);
    let b2 = BuilderView { source: Some(e.source), target: Some(e.target), ..empty_builder() };
    let x2 = ParseState { current: Some(b2), ..x };
    lemma_run_method(x2, b2, e.method, off + 2);
    let b3 = match e.method {
        Some(mm) => BuilderView { method: Some(method_name(mm)), ..b2 },
        None => b2,
    };
    let x3 = ParseState { current: Some(b3), ..x };
    lemma_run_flags(x3, b3, e, off + 2 + ml.len());
    lemma_run_append(x, st, ml, off);
    lemma_run_append(x, st + ml, fl, off);
    assert(entry_head(e).drop_first() =~= st + ml + fl);
    assert(BuilderView { encrypted: e.encrypted || b3.encrypted, directory: e.directory || b3.directory, ..b3 } == head_builder(e));
}

pub proof fn lemma_run_os_perm(y: ParseState, b: BuilderView, e: EntryView, off: nat)
    requires
        y.section == Some("entries"@),
        y.current == Some(b),
        entry_writable(e),
    ensures
        run(y, os_lines(e.os) + perm_lines(e.permissions), off) == Progress::Going(
            ParseState { current: Some(BuilderView { os: match e.os { Some(o) => Some(o), None => b.os }, permissions: match e.permissions { Some(p) => Some(p), None => b.permissions }, ..b }), ..y },
        ),
{
    lemma_words();
    let ol = os_lines(e.os);
    let pl = perm_lines(e.permissions);
    let b1 = BuilderView { os: match e.os { Some(o) => Some(o), None => b.os }, ..b };
    let y1 = ParseState { current: Some(b1), ..y };
    match e.os {
        Some(os) => {
            lemma_word("os"@);
            lemma_step_raw(y, "os"@, os, off + 1);
            lemma_run_one(y, raw_line("os"@, os), off);
            lemma_entry_key_os(y, b, os, off + 1);
        },
        None => {
            assert(b1 == b);
            assert(y1 == y);
        },
    }
    let b2 = BuilderView { permissions: match e.permissions { Some(p) => Some(p), None => b.permissions }, ..b1 };
    match e.permissions {
        Some(p) => {
            lemma_octal4_roundtrip(p);
            lemma_plain_line("permissions"@, octal4(p as nat));
            lemma_run_entry_line(y1, "permissions"@, octal4(p as nat), off + ol.len());
            lemma_entry_key_permissions(y1, b1, octal4(p as nat), off + ol.len() + 1);
        },
        None => {
            assert(b2 == b1);
        },
    }
    lemma_run_append(y, ol, pl, off);
}

pub proof fn lemma_run_before_after(y: ParseState, b: BuilderView, e: EntryView, off: nat)
    requires
        y.section == Some("entries"@),
        y.current == Some(b),
        entry_writable(e),
    ensures
        run(y, opt_line("before"@, e.before) + opt_line("after"@, e.after), off) == Progress::Going(
            ParseState { current: Some(BuilderView { before: match e.before { Some(v) => Some(v), None => b.before }, after: match e.after { Some(v) => Some(v), None => b.after }, ..b }), ..y },
        ),
{
    lemma_words();
    let bl = opt_line("before"@, e.before);
    let al = opt_line("after"@, e.after);
    let b1 = BuilderView { before: match e.before { Some(v) => Some(v), None => b.before }, ..b };
    let y1 = ParseState { current: Some(b1), ..y };
    match e.before {
        Some(v) => {
            lemma_run_entry_line(y, "before"@, v, off);
            lemma_entry_key_before(y, b, v, off + 1);
        },
        None => {
            assert(b1 == b);
            assert(y1 == y);
        },
    }
    let b2 = BuilderView { after: match e.after { Some(v) => Some(v), None => b.after }, ..b1 };
    match e.after {
        Some(v) => {
            lemma_run_entry_line(y1, "after"@, v, off + bl.len());
            lemma_entry_key_after(y1, b1, v, off + bl.len() + 1);
        },
        None => {
            assert(b2 == b1);
        },
    }
    lemma_run_append(y, bl, al, off);
}

pub proof fn lemma_run_entry_tail(y: ParseState, e: EntryView, off: nat)
    requires
        y.section == Some("entries"@),
        y.current == Some(head_builder(e)),
        entry_writable(e),
    ensures
        run(y, entry_tail(e), off) == Progress::Going(ParseState { current: Some(builder_of(e)), ..y }),
{
    let b0 = head_builder(e);
    let a = os_lines(e.os) + perm_lines(e.permissions);
    let c = opt_line("before"@, e.before) + opt_line("after"@, e.after);
    lemma_run_os_perm(y, b0, e, off);
    let b1 = BuilderView { os: match e.os { Some(o) => Some(o), None => b0.os }, permissions: match e.permissions { Some(p) => Some(p), None => b0.permissions }, ..b0 };
    let y1 = ParseState { current: Some(b1), ..y };
    lemma_run_before_after(y1, b1, e, off + a.len());
    let b2 = BuilderView { before: match e.before { Some(v) => Some(v), None => b1.before }, after: match e.after { Some(v) => Some(v), None => b1.after }, ..b1 };
    assert(b2 == builder_of(e));
    let y2 = ParseState { current: Some(b2), ..y };
    lemma_run_append(y, a, c, off);
    lemma_step_blank(y2, off + a.len() + c.len() + 1);
    lemma_run_push(y, a + c, Seq::empty(), off);
    assert(entry_tail(e) =~= (a + c).push(Seq::empty()));
}

/// An entry's table read in state `st`.
pub proof fn lemma_run_entry(st: ParseState, e: EntryView, off: nat)
    requires
        entry_writable(e),
    ensures
        run(st, entry_lines(e), off) == match flush(st, off + 1) {
            Progress::Going(s2) => Progress::Going(
                ParseState { current: Some(builder_of(e)), section: Some("entries"@), ..s2 },
            ),
            other => other,
        },
{
    lemma_step_entries_header(st, off + 1);
    let h = entry_head(e);
    assert(h == seq!["[[entries]]"@] + h.drop_first());
    lemma_run_cons(st, "[[entries]]"@, h.drop_first(), off);
    lemma_run_append(st, h, entry_tail(e), off);
    match flush(st, off + 1) {
        Progress::Going(s2) => {
            let x = ParseState { current: Some(empty_builder()), section: Some("entries"@), ..s2 };
            lemma_run_entry_head(x, e, off + 1);
            let y = ParseState { current: Some(head_builder(e)), ..x };
            lemma_run_entry_tail(y, e, off + h.len());
        },
        _ => {},
    }
}

pub proof fn lemma_run_entries(st: ParseState, es: Seq<EntryView>, off: nat)
    requires
        st.current is None,
        forall|i: int| 0 <= i < es.len() ==> entry_writable(#[trigger] es[i]),
    ensures
        run(st, entries_lines(es), off) == Progress::Going(
            if es.len() == 0 {
                st
            } else {
                ParseState {
                    entries: st.entries + es.drop_last(),
                    current: Some(builder_of(es.last())),
                    section: Some("entries"@),
                    ..st
                }
            },
        ),
    decreases es.len(),
{
    if es.len() > 0 {
        let prev = es.drop_last();
        let e = es.last();
        assert(entry_writable(es[es.len() - 1]));
        lemma_run_entries(st, prev, off);
        lemma_run_append(st, entries_lines(prev), entry_lines(e), off);
        let n = off + entries_lines(prev).len();
        if prev.len() == 0 {
            assert(st.entries + es.drop_last() == st.entries);
            lemma_run_entry(st, e, n);
        } else {
            let y = ParseState {
                entries: st.entries + prev.drop_last(),
                current: Some(builder_of(prev.last())),
                section: Some("entries"@),
                ..st
            };
            assert(entry_writable(prev[prev.len() - 1]));
            lemma_build_roundtrip(prev.last(), n + 1);
            lemma_run_entry(y, e, n);
            assert(st.entries + prev.drop_last() + seq![prev.last()] =~= st.entries + prev);
            assert(y.entries.push(prev.last()) =~= st.entries + prev);
        }
    }
}

/// A line that survives joining and splitting: no newline inside, no carriage
/// return at its end.
pub open spec fn good_line(l: Seq<char>) -> bool {
    (forall|k: int| 0 <= k < l.len() ==> l[k] != '\n') && (l.len() == 0 || l.last() != '\r')
}

pub open spec fn good_lines(ls: Seq<Seq<char>>) -> bool {
    forall|i: int| 0 <= i < ls.len() ==> good_line(#[trigger] ls[i])
}

pub proof fn lemma_good_append(a: Seq<Seq<char>>, b: Seq<Seq<char>>)
    requires
        good_lines(a),
        good_lines(b),
    ensures
        good_lines(a + b),
{
    assert forall|i: int| 0 <= i < (a + b).len() implies good_line(#[trigger] (a + b)[i]) by {
        if i < a.len() {
            assert((a + b)[i] == a[i]);
        } else {
            assert((a + b)[i] == b[i - a.len()]);
        }
    }
}

pub proof fn lemma_good_quoted(key: Seq<char>, v: Seq<char>)
    requires
        forall|k: int| 0 <= k < key.len() ==> key[k] != '\n',
    ensures
        good_line(quoted_line(key, v)),
{
    reveal_strlit(" = \"");
    reveal_strlit("\"");
    lemma_escape_no_newline(v);
    let e = escape(v);
    let l = quoted_line(key, v);
    let n = key.len() as int;
    assert(" = \""@ =~= seq![' ', '=', ' ', '"']);
    assert("\""@ =~= seq!['"']);
    assert forall|k: int| 0 <= k < l.len() implies l[k] != '\n' by {
        if k < n {
            assert(l[k] == key[k]);
        } else if n + 4 <= k < n + 4 + e.len() {
            assert(l[k] == e[k - n - 4]);
        }
    }
}

pub proof fn lemma_good_opt(key: Seq<char>, o: Option<Seq<char>>)
    requires
        is_word(key),
    ensures
        good_lines(opt_line(key, o)),
{
    lemma_word(key);
    match o {
        Some(v) => lemma_good_quoted(key, v),
        None => {},
    }
}

pub proof fn lemma_good_pairs(vs: Seq<(Seq<char>, Seq<char>)>)
    requires
        forall|i: int| 0 <= i < vs.len() ==> key_text(#[trigger] vs[i].0),
    ensures
        good_lines(pair_lines(vs)),
    decreases vs.len(),
{
    if vs.len() > 0 {
        assert(key_text(vs[vs.len() - 1].0));
        lemma_good_pairs(vs.drop_last());
        lemma_good_quoted(vs.last().0, vs.last().1);
        lemma_good_append(pair_lines(vs.drop_last()), seq![quoted_line(vs.last().0, vs.last().1)]);
    }
}

pub proof fn lemma_good_literals()
    ensures
        good_line(header_line()),
        good_line(vars_comment_line()),
        good_line("[settings]"@),
        good_line("[hooks]"@),
        good_line("[vars]"@),
        good_line("[[entries]]"@),
        good_line("encrypted = true"@),
        good_line("directory = true"@),
        good_line(Seq::empty()),
{
    reveal_strlit("# dotling.toml — managed by dotling, safe to hand-edit");
    reveal_strlit("# Shared defaults — override in ~/.dotling/vars.toml on each machine");
    reveal_strlit("[settings]");
    reveal_strlit("[hooks]");
    reveal_strlit("[vars]");
    reveal_strlit("[[entries]]");
    reveal_strlit("encrypted = true");
    reveal_strlit("directory = true");
}

pub proof fn lemma_good_entry(e: EntryView)
    requires
        entry_writable(e),
    ensures
        good_lines(entry_lines(e)),
{
    lemma_words();
    lemma_good_literals();
    lemma_word("source"@);
    lemma_word("target"@);
    lemma_word("method"@);
    lemma_word("os"@);
    lemma_word("permissions"@);
    lemma_good_quoted("source"@, e.source);
    lemma_good_quoted("target"@, e.target);
    let h3 = seq!["[[entries]]"@, quoted_line("source"@, e.source), quoted_line("target"@, e.target)];
    assert(good_lines(h3));
    let ml = method_lines(e.method);
    match e.method {
        Some(m) => {
            lemma_method_roundtrip(m);
            lemma_plain_line("method"@, method_name(m));
            lemma_good_quoted("method"@, method_name(m));
        },
        None => {},
    }
    assert(good_lines(ml));
    let el = flag_line(e.encrypted, "encrypted = true"@);
    let dl = flag_line(e.directory, "directory = true"@);
    assert(good_lines(el));
    assert(good_lines(dl));
    let ol = os_lines(e.os);
    match e.os {
        Some(os) => {
            lemma_word("os"@);
            lemma_step_raw(initial_state(), "os"@, os, 0);
        },
        None => {},
    }
    assert(good_lines(ol));
    let pl = perm_lines(e.permissions);
    match e.permissions {
        Some(p) => {
            lemma_octal4_roundtrip(p);
            lemma_plain_line("permissions"@, octal4(p as nat));
            lemma_good_quoted("permissions"@, octal4(p as nat));
        },
        None => {},
    }
    assert(good_lines(pl));
    lemma_good_opt("before"@, e.before);
    lemma_good_opt("after"@, e.after);
    lemma_good_append(h3, ml);
    lemma_good_append(h3 + ml, el);
    lemma_good_append(h3 + ml + el, dl);
    lemma_good_append(ol, pl);
    lemma_good_append(ol + pl, opt_line("before"@, e.before));
    lemma_good_append(ol + pl + opt_line("before"@, e.before), opt_line("after"@, e.after));
    lemma_good_append(
        ol + pl + opt_line("before"@, e.before) + opt_line("after"@, e.after),
        seq![Seq::empty()],
    );
    lemma_good_append(entry_head(e), entry_tail(e));
}

pub proof fn lemma_good_entries(es: Seq<EntryView>)
    requires
        forall|i: int| 0 <= i < es.len() ==> entry_writable(#[trigger] es[i]),
    ensures
        good_lines(entries_lines(es)),
    decreases es.len(),
{
    if es.len() > 0 {
        assert(entry_writable(es[es.len() - 1]));
        lemma_good_entries(es.drop_last());
        lemma_good_entry(es.last());
        lemma_good_append(entries_lines(es.drop_last()), entry_lines(es.last()));
    }
}

pub proof fn lemma_good_config(c: ConfigView)
    requires
        config_writable(c),
    ensures
        good_lines(config_lines(c)),
{
    lemma_words();
    lemma_good_literals();
    let h = seq![header_line(), Seq::<char>::empty()];
    assert(good_lines(h));
    let sl = settings_lines(c.method);
    if c.method != DeployMethod::Symlink {
        lemma_method_roundtrip(c.method);
        lemma_plain_line("method"@, method_name(c.method));
        lemma_word("method"@);
        lemma_good_quoted("method"@, method_name(c.method));
    }
    assert(good_lines(sl));
    let hl = hooks_lines(c.hooks);
    lemma_good_opt("init"@, c.hooks.init);
    lemma_good_opt("before"@, c.hooks.before);
    lemma_good_opt("after"@, c.hooks.after);
    let body = opt_line("init"@, c.hooks.init) + opt_line("before"@, c.hooks.before) + opt_line(
        "after"@,
        c.hooks.after,
    );
    lemma_good_append(opt_line("init"@, c.hooks.init), opt_line("before"@, c.hooks.before));
    lemma_good_append(
        opt_line("init"@, c.hooks.init) + opt_line("before"@, c.hooks.before),
        opt_line("after"@, c.hooks.after),
    );
    lemma_good_append(seq!["[hooks]"@], body);
    lemma_good_append(seq!["[hooks]"@] + body, seq![Seq::empty()]);
    assert(good_lines(hl));
    let vl = vars_lines(c.vars);
    lemma_good_pairs(c.vars);
    lemma_good_append(seq!["[vars]"@, vars_comment_line()], pair_lines(c.vars));
    lemma_good_append(seq!["[vars]"@, vars_comment_line()] + pair_lines(c.vars), seq![Seq::empty()]);
    assert(good_lines(vl));
    lemma_good_entries(c.entries);
    lemma_good_append(h, sl);
    lemma_good_append(h + sl, hl);
    lemma_good_append(h + sl + hl, vl);
    lemma_good_append(h + sl + hl + vl, entries_lines(c.entries));
}

/// The state after reading the header, settings, hooks and vars sections.
pub open spec fn sections_state(c: ConfigView) -> ParseState {
    let s0 = initial_state();
    let s1 = if c.method != DeployMethod::Symlink {
        ParseState { method: c.method, section: Some("settings"@), ..s0 }
    } else {
        s0
    };
    let s2 = if c.hooks.init is Some || c.hooks.before is Some || c.hooks.after is Some {
        ParseState { hooks: c.hooks, section: Some("hooks"@), ..s1 }
    } else {
        s1
    };
    if c.vars.len() > 0 {
        ParseState { vars: c.vars, section: Some("vars"@), ..s2 }
    } else {
        s2
    }
}

pub proof fn lemma_run_sections(c: ConfigView)
    requires
        config_writable(c),
    ensures
        run(
            initial_state(),
            seq![header_line(), Seq::<char>::empty()] + settings_lines(c.method) + hooks_lines(
                c.hooks,
            ) + vars_lines(c.vars),
            0,
        ) == Progress::Going(sections_state(c)),
        sections_state(c).current is None,
        sections_state(c).method == c.method,
        sections_state(c).hooks == c.hooks,
        sections_state(c).vars == c.vars,
        sections_state(c).entries.len() == 0,
{
    let s0 = initial_state();
    let h = seq![header_line(), Seq::<char>::empty()];
    let sl = settings_lines(c.method);
    let hl = hooks_lines(c.hooks);
    let vl = vars_lines(c.vars);
    lemma_run_header();
    lemma_run_settings(s0, c.method, 2);
    let s1 = if c.method != DeployMethod::Symlink {
        ParseState { method: c.method, section: Some("settings"@), ..s0 }
    } else {
        s0
    };
    lemma_run_hooks(s1, c.hooks, 2 + sl.len());
    let s2 = if c.hooks.init is Some || c.hooks.before is Some || c.hooks.after is Some {
        ParseState { hooks: c.hooks, section: Some("hooks"@), ..s1 }
    } else {
        s1
    };
    assert(s2.current is None);
    assert(s2.vars == Seq::<(Seq<char>, Seq<char>)>::empty());
    lemma_run_vars(s2, c.vars, 2 + sl.len() + hl.len());
    lemma_run_append(s0, h, sl, 0);
    lemma_run_append(s0, h + sl, hl, 0);
    lemma_run_append(s0, h + sl + hl, vl, 0);
}

/// Reading back what the serializer wrote gives the same configuration, when
/// no written text holds a `#` (which starts a comment), variable names are
/// trimmed and hold no `=` or newline, an entry's `os` holds no backslash, and
/// each entry's template flag is the one its source implies.
pub proof fn law_config_roundtrip(c: ConfigView, path: Seq<char>)
    requires
        config_writable(c),
    ensures
        parse_config_spec(serialize_spec(c), path) == Ok::<ConfigView, (Seq<char>, nat)>(
            ConfigView { path, ..c },
        ),
{
    let ls = config_lines(c);
    lemma_good_config(c);
    lemma_lines_join(ls);
    lemma_parse_lines_run(ls, ls.len());
    assert(ls.take(ls.len() as int) == ls);
    let pre = seq![header_line(), Seq::<char>::empty()] + settings_lines(c.method) + hooks_lines(
        c.hooks,
    ) + vars_lines(c.vars);
    lemma_run_sections(c);
    let s3 = sections_state(c);
    lemma_run_entries(s3, c.entries, pre.len());
    lemma_run_append(initial_state(), pre, entries_lines(c.entries), 0);
    let es = c.entries;
    if es.len() > 0 {
        assert(entry_writable(es[es.len() - 1]));
        lemma_build_roundtrip(es.last(), ls.len());
        assert(s3.entries + es.drop_last() =~= es.drop_last());
        assert(es.drop_last().push(es.last()) == es);
    } else {
        assert(s3.entries =~= es);
    }
}

} // verus!
