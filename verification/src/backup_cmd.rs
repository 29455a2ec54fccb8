//! The `dotling backup` subcommands: which sessions to remove and what to
//! tell the user. Listing and deleting the session directories is the
//! caller's.

use vstd::prelude::*;

use crate::backup::{clean_plan, clean_plan_spec, strings_of};
use crate::text::{decimal, decimal_vec, push_all, push_str, string_of};
use crate::ui::{notice, notices_view, Notice, NoticeKind};

verus! {

/// Without `--keep-last` or `--older-than`, the ten most recent sessions
/// are kept.
pub open spec fn clean_policy(keep_last: Option<usize>, older_than_days: Option<u64>) -> (Option<usize>, Option<u64>) {
    if keep_last is None && older_than_days is None {
        (Some(10), None)
    } else {
        (keep_last, older_than_days)
    }
}

/// What is said after a clean of `total` sessions that removed `removed`.
pub open spec fn finish_notices(total: nat, removed: nat) -> Seq<(NoticeKind, Seq<char>)> {
    if total == 0 {
        seq![(NoticeKind::Info, "no backup sessions found"@)]
    } else if removed == 0 {
        seq![(NoticeKind::Info, decimal(total) + " backup session(s) kept — nothing to clean"@)]
    } else {
        seq![(NoticeKind::Success, "removed "@ + decimal(removed) + " of "@ + decimal(total) + " backup session(s)"@)]
    }
}

/// The sessions a clean removes (indices into the sessions, oldest first),
/// and what to say once they are gone.
#[derive(Debug, Clone)]
pub struct CleanReport {
    pub remove: Vec<usize>,
    pub notices: Vec<Notice>,
}

fn finish(total: usize, removed: usize) -> (r: Vec<Notice>)
    ensures
        notices_view(r@) == finish_notices(total as nat, removed as nat),
{
    if total == 0 {
        let r = vec![notice(NoticeKind::Info, "no backup sessions found")];
        assert(notices_view(r@) =~= finish_notices(total as nat, removed as nat));
        return r;
    }
    let mut v: Vec<char> = Vec::new();
    if removed == 0 {
        push_all(&mut v, &decimal_vec(total));
        push_str(&mut v, " backup session(s) kept — nothing to clean");
        let t = string_of(&v);
        let r = vec![notice(NoticeKind::Info, t.as_str())];
        assert(notices_view(r@) =~= finish_notices(total as nat, removed as nat));
        r
    } else {
        push_str(&mut v, "removed ");
        push_all(&mut v, &decimal_vec(removed));
        push_str(&mut v, " of ");
        push_all(&mut v, &decimal_vec(total));
        push_str(&mut v, " backup session(s)");
        let t = string_of(&v);
        let r = vec![notice(NoticeKind::Success, t.as_str())];
        assert(notices_view(r@) =~= finish_notices(total as nat, removed as nat));
        r
    }
}

/// `dotling backup clean` over the sessions found (oldest first) at Unix
/// time `now`.
pub fn run_clean(keep_last: Option<usize>, older_than_days: Option<u64>, sessions: &Vec<String>, now: u64) -> (r:
    CleanReport)
    ensures
        r.remove@.map_values(|i: usize| i as int) == clean_plan_spec(
            strings_of(sessions@),
            clean_policy(keep_last, older_than_days).0,
            clean_policy(keep_last, older_than_days).1,
            now,
        ),
        notices_view(r.notices@) == finish_notices(sessions@.len(), r.remove@.len()),
{
    let (keep, days) = if keep_last.is_none() && older_than_days.is_none() {
        (Some(10usize), None)
    } else {
        (keep_last, older_than_days)
    };
    let remove = clean_plan(sessions, keep, days, now);
    let notices = finish(sessions.len(), remove.len());
    CleanReport { remove, notices }
}

/// What `dotling backup list` shows for the sessions found.
pub open spec fn list_notices(sessions: Seq<Seq<char>>) -> Seq<(NoticeKind, Seq<char>)> {
    if sessions.len() == 0 {
        seq![(NoticeKind::Info, "no backup sessions found"@)]
    } else {
        seq![(NoticeKind::Header, decimal(sessions.len()) + " backup session(s)"@)] + sessions.map_values(
            |s: Seq<char>| (NoticeKind::Info, s),
        )
    }
}

/// `dotling backup list`: a header and one line per session.
pub fn run_list(sessions: &Vec<String>) -> (r: Vec<Notice>)
    ensures
        notices_view(r@) == list_notices(strings_of(sessions@)),
{
    let ghost ss = strings_of(sessions@);
    if sessions.len() == 0 {
        let r = vec![notice(NoticeKind::Info, "no backup sessions found")];
        assert(notices_view(r@) =~= list_notices(ss));
        return r;
    }
    let mut v: Vec<char> = Vec::new();
    push_all(&mut v, &decimal_vec(sessions.len()));
    push_str(&mut v, " backup session(s)");
    let t = string_of(&v);
    let mut r: Vec<Notice> = vec![notice(NoticeKind::Header, t.as_str())];
    let ghost head = seq![(NoticeKind::Header, decimal(sessions@.len()) + " backup session(s)"@)];
    assert(notices_view(r@) =~= head);
    let mut i: usize = 0;
    while i < sessions.len()
        invariant
            i <= sessions@.len(),
            ss == strings_of(sessions@),
            head == seq![(NoticeKind::Header, decimal(sessions@.len()) + " backup session(s)"@)],
            notices_view(r@) == head + ss.take(i as int).map_values(|s: Seq<char>| (NoticeKind::Info, s)),
        decreases sessions@.len() - i,
    {
        let ghost before = r@;
        r.push(notice(NoticeKind::Info, sessions[i].as_str()));
        assert(ss.take(i as int + 1) =~= ss.take(i as int).push(ss[i as int]));
        assert(notices_view(r@) =~= notices_view(before).push((NoticeKind::Info, ss[i as int])));
        assert(ss.take(i as int + 1).map_values(|s: Seq<char>| (NoticeKind::Info, s)) =~= ss.take(
            i as int,
        ).map_values(|s: Seq<char>| (NoticeKind::Info, s)).push((NoticeKind::Info, ss[i as int])));
        i += 1;
    }
    assert(ss.take(sessions@.len() as int) =~= ss);
    r
}

} // verus!
