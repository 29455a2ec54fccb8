//! `dotling encrypt` and `dotling decrypt`: for each path the user names,
//! what to do with the entry it finds, and which repo files an entry's
//! encryption moves between.
//!
//! The caller runs the loop: it asks for the step of each query, reads,
//! seals or opens and writes the files of a step that has work, then marks
//! the entry and shows the messages.

use vstd::prelude::*;

use crate::config::{match_index, parent_of, Config, EntryView, entries_view};
use crate::text::{ends_with, ends_with_exec, chars_of, push_str, slice_to_vec, string_of};
use crate::ui::{notice, Notice, NoticeKind};

verus! {

/// What to do for one query.
#[derive(Debug, Clone)]
pub enum EntryStep {
    /// The entry with this source is already in the wanted state.
    Already(String),
    /// The entry at this index is to be encrypted (or decrypted).
    Work(usize),
    /// No entry answers the query.
    NotTracked(String),
}

/// The step for `query` on these entries, when `encrypting` (or decrypting).
pub open spec fn entry_step_spec(
    c: crate::config::ConfigView,
    query: Seq<char>,
    home: Seq<char>,
    cwd: Seq<char>,
    encrypting: bool,
) -> (int, Seq<char>) {
    let k = match_index(c.entries, query, parent_of(c.path), home, cwd);
    if k < 0 {
        (-1, query)
    } else if c.entries[k].encrypted == encrypting {
        (-2, c.entries[k].source)
    } else {
        (k, Seq::empty())
    }
}

/// The step as (index, text): an index of work, or -1 with the query, or
/// -2 with the source.
pub open spec fn step_view(s: EntryStep) -> (int, Seq<char>) {
    match s {
        EntryStep::Already(src) => (-2, src@),
        EntryStep::Work(i) => (i as int, Seq::empty()),
        EntryStep::NotTracked(q) => (-1, q@),
    }
}

/// Find the entry for `query` and decide: nothing to do, work, or not
/// tracked.
pub fn entry_step(config: &Config, query: &str, home: &str, cwd: &str, encrypting: bool) -> (r: EntryStep)
    ensures
        step_view(r) == entry_step_spec(config@, query@, home@, cwd@, encrypting),
{
    proof {
        crate::config::lemma_match_index_from(config@.entries, query@, parent_of(config@.path), home@, cwd@, 0);
    }
    let n = config.entries.len();
    assert(config@.entries.len() == n);
    match config.find_entry_index(query, home, cwd) {
        None => EntryStep::NotTracked(query.to_string()),
        Some(i) => {
            assert(config@.entries[i as int] == config.entries@[i as int]@);
            if config.entries[i].encrypted == encrypting {
                let s = config.entries[i].source.clone();
                EntryStep::Already(s)
            } else {
                EntryStep::Work(i)
            }
        },
    }
}

/// The message of a step with no work.
pub open spec fn step_notice_spec(s: (int, Seq<char>), encrypting: bool) -> Option<(NoticeKind, Seq<char>)> {
    if s.0 == -1 {
        Some((NoticeKind::Error, "`"@ + s.1 + "` is not tracked"@))
    } else if s.0 == -2 {
        Some((NoticeKind::Warning, "`"@ + s.1 + (if encrypting {
            "` is already encrypted"@
        } else {
            "` is not encrypted"@
        })))
    } else {
        None
    }
}

pub fn step_notice(s: &EntryStep, encrypting: bool) -> (r: Option<Notice>)
    ensures
        match step_notice_spec(step_view(*s), encrypting) {
            Some((k, t)) => r matches Some(n) && n.kind == k && n.text@ == t,
            None => r is None,
        },
{
    let mut v: Vec<char> = Vec::new();
    match s {
        EntryStep::NotTracked(q) => {
            push_str(&mut v, "`");
            push_str(&mut v, q.as_str());
            push_str(&mut v, "` is not tracked");
            let t = string_of(&v);
            Some(notice(NoticeKind::Error, t.as_str()))
        },
        EntryStep::Already(src) => {
            push_str(&mut v, "`");
            push_str(&mut v, src.as_str());
            if encrypting {
                push_str(&mut v, "` is already encrypted");
            } else {
                push_str(&mut v, "` is not encrypted");
            }
            let t = string_of(&v);
            Some(notice(NoticeKind::Warning, t.as_str()))
        },
        EntryStep::Work(_) => None,
    }
}

/// The message after an entry's files were encrypted (or decrypted).
pub fn done_notice(source: &str, encrypting: bool) -> (r: Notice)
    ensures
        r.kind == NoticeKind::Success,
        r.text@ == (if encrypting {
            "encrypted `"@
        } else {
            "decrypted `"@
        }) + source@ + "`"@,
{
    let mut v: Vec<char> = Vec::new();
    if encrypting {
        push_str(&mut v, "encrypted `");
    } else {
        push_str(&mut v, "decrypted `");
    }
    push_str(&mut v, source);
    push_str(&mut v, "`");
    let t = string_of(&v);
    notice(NoticeKind::Success, t.as_str())
}

/// Record that the entry at `index` is now encrypted (or not); nothing else
/// changes.
pub fn set_encrypted(config: &mut Config, index: usize, encrypted: bool)
    requires
        index < old(config).entries@.len(),
    ensures
        final(config)@.entries == old(config)@.entries.update(
            index as int,
            EntryView { encrypted, ..old(config)@.entries[index as int] },
        ),
        final(config)@.method == old(config)@.method,
        final(config)@.hooks == old(config)@.hooks,
        final(config)@.vars == old(config)@.vars,
        final(config)@.path == old(config)@.path,
{
    let ghost es = old(config).entries@;
    config.entries[index].encrypted = encrypted;
    assert(entries_view(config.entries@) =~= entries_view(es).update(
        index as int,
        EntryView { encrypted, ..entries_view(es)[index as int] },
    ));
}

/// The repo file of an encrypted single-file entry: the source with `.enc`
/// added.
pub open spec fn sealed_source(source: Seq<char>) -> Seq<char> {
    source + ".enc"@
}

/// Decrypting a single-file entry: the encrypted file and the plaintext
/// file it becomes. A source that already ends in `.enc` is the encrypted
/// file, and the plaintext drops the suffix.
pub open spec fn decrypt_paths_spec(source: Seq<char>) -> (Seq<char>, Seq<char>) {
    if ends_with(source, ".enc"@) {
        (source, source.take(source.len() - 4))
    } else {
        (source + ".enc"@, source)
    }
}

pub fn decrypt_paths(source: &str) -> (r: (String, String))
    ensures
        r.0@ == decrypt_paths_spec(source@).0,
        r.1@ == decrypt_paths_spec(source@).1,
{
    let s = chars_of(source);
    let suffix = chars_of(".enc");
    proof {
        reveal_strlit(".enc");
    }
    if ends_with_exec(&s, &suffix) {
        let plain = slice_to_vec(&s, 0, s.len() - 4);
        (source.to_string(), string_of(&plain))
    } else {
        let mut v: Vec<char> = Vec::new();
        push_str(&mut v, source);
        push_str(&mut v, ".enc");
        (string_of(&v), source.to_string())
    }
}

} // verus!
