//! The link-based configuration (`.dotling.toml` with `[[links]]` tables):
//! entries with a repo-relative source, a home destination and a method.
//!
//! Reading and writing the TOML file is done by the caller; the list of
//! entries and its rules (one entry per destination) live here.

use vstd::prelude::*;

use crate::error::DotlingError;
use crate::platform::Platform;
use crate::text::{push_all, push_str, str_eq, string_of};

verus! {

/// Name of the config file at the repo root.
pub const CONFIG_FILE: &'static str = ".dotling.toml";

/// How a file should be deployed to its destination.
#[derive(Debug, Clone, Copy, PartialEq, Eq, Structural)]
pub enum LinkMethod {
    /// Deploy as a symbolic link (default).
    Symlink,
    /// Deploy as a file copy.
    Copy,
    /// Deploy as an age-encrypted copy.
    Encrypted,
}

pub open spec fn link_method_name(m: LinkMethod) -> Seq<char> {
    match m {
        LinkMethod::Symlink => "symlink"@,
        LinkMethod::Copy => "copy"@,
        LinkMethod::Encrypted => "encrypted"@,
    }
}

impl LinkMethod {
    /// The method's name as written in the config.
    pub fn name(self) -> (r: &'static str)
        ensures
            r@ == link_method_name(self),
    {
        match self {
            LinkMethod::Symlink => "symlink",
            LinkMethod::Copy => "copy",
            LinkMethod::Encrypted => "encrypted",
        }
    }

    /// The default method: symlinks.
    pub fn default_method() -> (r: LinkMethod)
        ensures
            r == LinkMethod::Symlink,
    {
        LinkMethod::Symlink
    }
}

/// A single tracked file entry in the config.
#[derive(Debug, Clone)]
pub struct LinkEntry {
    /// Repo-relative source path (forward slashes only).
    pub src: String,
    /// Absolute destination path (`~` prefix allowed).
    pub dest: String,
    /// How the file is deployed.
    pub method: LinkMethod,
    /// Target OS for this entry; `None` for all platforms.
    pub os: Option<Platform>,
}

pub struct LinkEntryView {
    pub src: Seq<char>,
    pub dest: Seq<char>,
    pub method: LinkMethod,
    pub os: Option<Platform>,
}

impl View for LinkEntry {
    type V = LinkEntryView;

    open spec fn view(&self) -> LinkEntryView {
        LinkEntryView { src: self.src@, dest: self.dest@, method: self.method, os: self.os }
    }
}

/// Whether an entry applies on a platform.
pub open spec fn is_active_spec(e: LinkEntryView, current: Platform) -> bool {
    match e.os {
        None => true,
        Some(p) => p == current,
    }
}

impl LinkEntry {
    /// Whether this entry applies on the `current` platform.
    pub fn is_active(&self, current: Platform) -> (r: bool)
        ensures
            r == is_active_spec(self@, current),
    {
        match self.os {
            None => true,
            Some(p) => p == current,
        }
    }
}

/// Global encryption settings.
#[derive(Debug, Clone)]
pub struct EncryptionConfig {
    /// List of age public key strings (recipients).
    pub recipients: Vec<String>,
}

impl EncryptionConfig {
    /// No recipients.
    pub fn empty() -> (r: EncryptionConfig)
        ensures
            r.recipients@.len() == 0,
    {
        EncryptionConfig { recipients: Vec::new() }
    }
}

/// The dotling configuration, managing tracked file entries.
#[derive(Debug, Clone)]
pub struct Config {
    /// Path to the config file on disk.
    pub path: String,
    /// Global encryption settings.
    pub encryption: EncryptionConfig,
    /// All tracked entries, in insertion order.
    pub entries: Vec<LinkEntry>,
}

pub open spec fn link_entries_view(v: Seq<LinkEntry>) -> Seq<LinkEntryView> {
    v.map_values(|e: LinkEntry| e@)
}

/// The index of the first entry with destination `dest`, or `-1`.
pub open spec fn dest_index_from(es: Seq<LinkEntryView>, dest: Seq<char>, i: int) -> int
    decreases es.len() - i,
{
    if i < 0 || i >= es.len() {
        -1
    } else if es[i].dest == dest {
        i
    } else {
        dest_index_from(es, dest, i + 1)
    }
}

pub open spec fn dest_index(es: Seq<LinkEntryView>, dest: Seq<char>) -> int {
    dest_index_from(es, dest, 0)
}

/// The index of the first entry with source `src`, or `-1`.
pub open spec fn src_index_from(es: Seq<LinkEntryView>, src: Seq<char>, i: int) -> int
    decreases es.len() - i,
{
    if i < 0 || i >= es.len() {
        -1
    } else if es[i].src == src {
        i
    } else {
        src_index_from(es, src, i + 1)
    }
}

pub open spec fn src_index(es: Seq<LinkEntryView>, src: Seq<char>) -> int {
    src_index_from(es, src, 0)
}

pub proof fn lemma_dest_index_from(es: Seq<LinkEntryView>, dest: Seq<char>, i: int)
    requires
        0 <= i <= es.len(),
    ensures
        ({
            let r = dest_index_from(es, dest, i);
            &&& r == -1 || (i <= r < es.len() && es[r].dest == dest)
            &&& forall|k: int| i <= k < (if r == -1 { es.len() as int } else { r }) ==> es[k].dest != dest
        }),
    decreases es.len() - i,
{
    if i < es.len() && es[i].dest != dest {
        lemma_dest_index_from(es, dest, i + 1);
    }
}

pub proof fn lemma_src_index_from(es: Seq<LinkEntryView>, src: Seq<char>, i: int)
    requires
        0 <= i <= es.len(),
    ensures
        ({
            let r = src_index_from(es, src, i);
            &&& r == -1 || (i <= r < es.len() && es[r].src == src)
            &&& forall|k: int| i <= k < (if r == -1 { es.len() as int } else { r }) ==> es[k].src != src
        }),
    decreases es.len() - i,
{
    if i < es.len() && es[i].src != src {
        lemma_src_index_from(es, src, i + 1);
    }
}

/// The entries that apply on a platform, in order.
pub open spec fn active_view(es: Seq<LinkEntryView>, current: Platform) -> Seq<LinkEntryView>
    decreases es.len(),
{
    if es.len() == 0 {
        Seq::empty()
    } else if is_active_spec(es.last(), current) {
        active_view(es.drop_last(), current).push(es.last())
    } else {
        active_view(es.drop_last(), current)
    }
}

impl Config {
    /// A config at `path` with no recipients and no entries, as when the
    /// file does not exist yet.
    pub fn empty(path: &str) -> (r: Config)
        ensures
            r.path@ == path@,
            r.entries@.len() == 0,
            r.encryption.recipients@.len() == 0,
    {
        Config { path: path.to_string(), encryption: EncryptionConfig::empty(), entries: Vec::new() }
    }

    /// A config at `path` with the given settings and entries, as read from
    /// the file.
    pub fn from_parts(path: &str, encryption: EncryptionConfig, entries: Vec<LinkEntry>) -> (r: Config)
        ensures
            r.path@ == path@,
            r.entries@ == entries@,
            r.encryption.recipients@ == encryption.recipients@,
    {
        Config { path: path.to_string(), encryption, entries }
    }

    /// Path to the config file on disk.
    pub fn path(&self) -> (r: &str)
        ensures
            r@ == self.path@,
    {
        self.path.as_str()
    }

    fn position_dest(&self, dest: &str) -> (r: Option<usize>)
        ensures
            match r {
                Some(i) => i as int == dest_index(link_entries_view(self.entries@), dest@),
                None => dest_index(link_entries_view(self.entries@), dest@) == -1,
            },
    {
        let ghost es = link_entries_view(self.entries@);
        let mut i: usize = 0;
        while i < self.entries.len()
            invariant
                i <= self.entries@.len(),
                es == link_entries_view(self.entries@),
                dest_index(es, dest@) == dest_index_from(es, dest@, i as int),
            decreases self.entries@.len() - i,
        {
            if str_eq(self.entries[i].dest.as_str(), dest) {
                return Some(i);
            }
            i += 1;
        }
        None
    }

    fn position_src(&self, src: &str) -> (r: Option<usize>)
        ensures
            match r {
                Some(i) => i as int == src_index(link_entries_view(self.entries@), src@),
                None => src_index(link_entries_view(self.entries@), src@) == -1,
            },
    {
        let ghost es = link_entries_view(self.entries@);
        let mut i: usize = 0;
        while i < self.entries.len()
            invariant
                i <= self.entries@.len(),
                es == link_entries_view(self.entries@),
                src_index(es, src@) == src_index_from(es, src@, i as int),
            decreases self.entries@.len() - i,
        {
            if str_eq(self.entries[i].src.as_str(), src) {
                return Some(i);
            }
            i += 1;
        }
        None
    }

    /// Adds a new entry. Errors if the destination is already tracked.
    pub fn add_entry(&mut self, entry: LinkEntry) -> (r: Result<(), DotlingError>)
        ensures
            dest_index(link_entries_view(old(self).entries@), entry@.dest) == -1 ==> r is Ok
                && final(self).entries@ == old(self).entries@.push(entry),
            dest_index(link_entries_view(old(self).entries@), entry@.dest) != -1 ==> (r matches Err(
                DotlingError::AlreadyTracked(d),
            ) && d@ == entry@.dest) && final(self).entries@ == old(self).entries@,
            final(self).path@ == old(self).path@,
            final(self).encryption.recipients@ == old(self).encryption.recipients@,
    {
        match self.position_dest(entry.dest.as_str()) {
            Some(_) => Err(DotlingError::AlreadyTracked(entry.dest.clone())),
            None => {
                self.entries.push(entry);
                Ok(())
            },
        }
    }

    /// Removes an entry by its destination path. Errors if not found.
    pub fn remove_entry(&mut self, dest: &str) -> (r: Result<LinkEntry, DotlingError>)
        ensures
            ({
                let i = dest_index(link_entries_view(old(self).entries@), dest@);
                &&& i == -1 ==> (r matches Err(DotlingError::NotTracked(d)) && d@ == dest@)
                    && final(self).entries@ == old(self).entries@
                &&& i != -1 ==> r == Ok::<LinkEntry, DotlingError>(old(self).entries@[i])
                    && final(self).entries@ == old(self).entries@.remove(i)
            }),
            final(self).path@ == old(self).path@,
            final(self).encryption.recipients@ == old(self).encryption.recipients@,
    {
        proof {
            lemma_dest_index_from(link_entries_view(self.entries@), dest@, 0);
        }
        match self.position_dest(dest) {
            Some(i) => Ok(self.entries.remove(i)),
            None => Err(DotlingError::NotTracked(dest.to_string())),
        }
    }

    /// Finds an entry by its destination path.
    pub fn find_by_dest(&self, dest: &str) -> (r: Option<&LinkEntry>)
        ensures
            ({
                let i = dest_index(link_entries_view(self.entries@), dest@);
                &&& i == -1 ==> r is None
                &&& i != -1 ==> r == Some(&self.entries@[i])
            }),
    {
        proof {
            lemma_dest_index_from(link_entries_view(self.entries@), dest@, 0);
        }
        match self.position_dest(dest) {
            Some(i) => Some(&self.entries[i]),
            None => None,
        }
    }

    /// Finds an entry by its source path.
    pub fn find_by_src(&self, src: &str) -> (r: Option<&LinkEntry>)
        ensures
            ({
                let i = src_index(link_entries_view(self.entries@), src@);
                &&& i == -1 ==> r is None
                &&& i != -1 ==> r == Some(&self.entries@[i])
            }),
    {
        proof {
            lemma_src_index_from(link_entries_view(self.entries@), src@, 0);
        }
        match self.position_src(src) {
            Some(i) => Some(&self.entries[i]),
            None => None,
        }
    }

    /// Returns entries that apply on the `current` platform; entries for all
    /// platforms are always included.
    pub fn active_entries(&self, current: Platform) -> (r: Vec<&LinkEntry>)
        ensures
            r@.map_values(|e: &LinkEntry| e@) == active_view(link_entries_view(self.entries@), current),
    {
        let ghost es = link_entries_view(self.entries@);
        let mut r: Vec<&LinkEntry> = Vec::new();
        let mut i: usize = 0;
        while i < self.entries.len()
            invariant
                i <= self.entries@.len(),
                es == link_entries_view(self.entries@),
                r@.map_values(|e: &LinkEntry| e@) == active_view(es.take(i as int), current),
            decreases self.entries@.len() - i,
        {
            let e = &self.entries[i];
            let ghost r0 = r@;
            proof {
                assert(es.take(i + 1).drop_last() == es.take(i as int));
                assert(es.take(i + 1).last() == e@);
            }
            if e.is_active(current) {
                r.push(e);
                assert(r@.map_values(|e: &LinkEntry| e@) =~= r0.map_values(|e: &LinkEntry| e@).push(e@));
            }
            i += 1;
        }
        assert(es.take(es.len() as int) == es);
        r
    }
}

/// Adding an entry and then removing it by its destination gives back the
/// entry and leaves the entries as they were.
pub proof fn law_add_then_remove(es: Seq<LinkEntryView>, e: LinkEntryView)
    requires
        dest_index(es, e.dest) == -1,
    ensures
        dest_index(es.push(e), e.dest) == es.len(),
        es.push(e).remove(es.len() as int) == es,
{
    lemma_dest_index_from(es, e.dest, 0);
    lemma_dest_index_from(es.push(e), e.dest, 0);
    assert(es.push(e)[es.len() as int] == e);
    if dest_index(es.push(e), e.dest) != es.len() {
        let r = dest_index(es.push(e), e.dest);
        assert(es.push(e)[r] == es[r]);
    }
    assert(es.push(e).remove(es.len() as int) =~= es);
}

/// A destination is tracked at most once: after a successful add, a second
/// entry with the same destination is refused.
pub proof fn law_destination_tracked_once(es: Seq<LinkEntryView>, e: LinkEntryView, f: LinkEntryView)
    requires
        f.dest == e.dest,
    ensures
        dest_index(es.push(e), f.dest) != -1,
{
    lemma_dest_index_from(es.push(e), f.dest, 0);
    assert(es.push(e)[es.len() as int].dest == f.dest);
}

// ── Writing the file ──────────────────────────────────────────────

/// What `{:?}` writes for a string: the string quoted, with its special
/// characters escaped.
pub uninterp spec fn debug_str(s: Seq<char>) -> Seq<char>;

/// `<str as Debug>::fmt`, through `format!("{:?}", s)`.
///
/// Trusted: the result depends on `s` alone; its escaping rules (those of
/// `char::escape_debug`) are named by [`debug_str`], not written out.
#[verifier::external_body]
fn debug_quoted(s: &str) -> (r: String)
    ensures
        r@ == debug_str(s@),
{
    format!("{:?}", s)
}

pub open spec fn recipients_text(rs: Seq<Seq<char>>) -> Seq<char>
    decreases rs.len(),
{
    if rs.len() == 0 {
        Seq::empty()
    } else {
        recipients_text(rs.drop_last()) + "    "@ + debug_str(rs.last()) + ",\n"@
    }
}

/// The `[[links]]` table of one entry.
pub open spec fn link_text(e: LinkEntryView) -> Seq<char> {
    "[[links]]\nsrc = "@ + debug_str(e.src) + "\ndest = "@ + debug_str(e.dest) + "\n"@ + (if e.method
        != LinkMethod::Symlink {
        "method = \""@ + link_method_name(e.method) + "\"\n"@
    } else {
        Seq::<char>::empty()
    }) + (match e.os {
        Some(p) => "os = \""@ + crate::platform::platform_name(p) + "\"\n"@,
        None => Seq::<char>::empty(),
    })
}

pub open spec fn links_text(es: Seq<LinkEntryView>) -> Seq<char>
    decreases es.len(),
{
    if es.len() == 0 {
        Seq::empty()
    } else if es.len() == 1 {
        link_text(es[0])
    } else {
        links_text(es.drop_last()) + "\n"@ + link_text(es.last())
    }
}

/// The text of `.dotling.toml`: the recipients, if any, then one
/// `[[links]]` table per entry, separated by empty lines.
pub open spec fn config_text(recipients: Seq<Seq<char>>, es: Seq<LinkEntryView>) -> Seq<char> {
    (if recipients.len() > 0 {
        "[encryption]\nrecipients = [\n"@ + recipients_text(recipients) + "]\n\n"@
    } else {
        Seq::<char>::empty()
    }) + links_text(es)
}

fn link_entry_text(e: &LinkEntry) -> (r: Vec<char>)
    ensures
        r@ == link_text(e@),
{
    let mut v: Vec<char> = Vec::new();
    push_str(&mut v, "[[links]]\nsrc = ");
    push_str(&mut v, debug_quoted(e.src.as_str()).as_str());
    push_str(&mut v, "\ndest = ");
    push_str(&mut v, debug_quoted(e.dest.as_str()).as_str());
    push_str(&mut v, "\n");
    if e.method != LinkMethod::Symlink {
        push_str(&mut v, "method = \"");
        push_str(&mut v, e.method.name());
        push_str(&mut v, "\"\n");
    }
    match e.os {
        Some(p) => {
            push_str(&mut v, "os = \"");
            push_str(&mut v, p.as_str());
            push_str(&mut v, "\"\n");
        },
        None => {},
    }
    assert(v@ =~= link_text(e@));
    v
}

impl Config {
    /// The text to write to the config file.
    pub fn save(&self) -> (r: String)
        ensures
            r@ == config_text(self.encryption.recipients@.map_values(|s: String| s@), link_entries_view(self.entries@)),
    {
        let ghost rs = self.encryption.recipients@.map_values(|s: String| s@);
        let ghost es = link_entries_view(self.entries@);
        let mut v: Vec<char> = Vec::new();
        if self.encryption.recipients.len() > 0 {
            push_str(&mut v, "[encryption]\nrecipients = [\n");
            let ghost head = v@;
            let mut i: usize = 0;
            while i < self.encryption.recipients.len()
                invariant
                    i <= self.encryption.recipients@.len(),
                    rs == self.encryption.recipients@.map_values(|s: String| s@),
                    v@ == head + recipients_text(rs.take(i as int)),
                decreases self.encryption.recipients@.len() - i,
            {
                push_str(&mut v, "    ");
                push_str(&mut v, debug_quoted(self.encryption.recipients[i].as_str()).as_str());
                push_str(&mut v, ",\n");
                proof {
                    assert(rs.take(i + 1).drop_last() =~= rs.take(i as int));
                    assert(rs.take(i + 1).last() == rs[i as int]);
                }
                i += 1;
            }
            assert(rs.take(rs.len() as int) =~= rs);
            push_str(&mut v, "]\n\n");
        }
        let ghost pre = v@;
        assert(pre == (if rs.len() > 0 {
            "[encryption]\nrecipients = [\n"@ + recipients_text(rs) + "]\n\n"@
        } else {
            Seq::<char>::empty()
        }));
        let mut i: usize = 0;
        while i < self.entries.len()
            invariant
                i <= self.entries@.len(),
                es == link_entries_view(self.entries@),
                v@ == pre + links_text(es.take(i as int)),
            decreases self.entries@.len() - i,
        {
            if i > 0 {
                push_str(&mut v, "\n");
            }
            let t = link_entry_text(&self.entries[i]);
            push_all(&mut v, &t);
            proof {
                assert(es.take(i + 1).drop_last() =~= es.take(i as int));
                assert(es.take(i + 1).last() == es[i as int]);
                if i == 0 {
                    assert(es.take(1) =~= seq![es[0]]);
                }
            }
            i += 1;
        }
        assert(es.take(es.len() as int) =~= es);
        string_of(&v)
    }
}

impl Config {
    /// Whether a file of the repo (its path relative to the repo root) is
    /// an orphan: not a dotfile of the repo itself (`.git`, the config file,
    /// any name starting with `.`) and the source of no entry.
    pub fn is_orphan(&self, rel: &str) -> (r: bool)
        ensures
            r == (!crate::text::starts_with(rel@, "."@) && rel@ != CONFIG_FILE@ && src_index(
                link_entries_view(self.entries@),
                rel@,
            ) == -1),
    {
        let c = crate::text::chars_of(rel);
        let dot = crate::text::chars_of(".");
        proof {
            reveal_strlit(".");
        }
        if crate::text::starts_with_exec(&c, &dot) || str_eq(rel, CONFIG_FILE) {
            return false;
        }
        self.find_by_src(rel).is_none()
    }
}

} // verus!
