//! Backups taken before dotling overwrites a local file:
//!
//! ```text
//! ~/.dotling/backups/<unix-seconds>/<repo-relative-source-path>
//! ```
//!
//! and which old sessions `dotling backup clean` removes. Copying and
//! deleting files is the caller's.

use vstd::prelude::*;

use crate::fingerprint::lex_lt;
use crate::path::{file_name, file_name_vec, join, join_paths};
use crate::text::{chars_of, decimal, decimal_u64, string_of};

verus! {

/// The directory of the backup session started at `ts` seconds.
pub open spec fn session_dir_spec(backups: Seq<char>, ts: u64) -> Seq<char> {
    join(backups, decimal(ts as nat))
}

/// The directory of the backup session started at `ts` (Unix seconds).
pub fn session_dir(backups: &str, ts: u64) -> (r: String)
    ensures
        r@ == session_dir_spec(backups@, ts),
{
    let d = string_of(&decimal_u64(ts));
    join_paths(backups, d.as_str())
}

/// Where a file is backed up: the source key mirrored inside the session.
pub fn backup(session: &str, source_key: &str) -> (r: String)
    ensures
        r@ == join(session@, source_key@),
{
    join_paths(session, source_key)
}

/// Where a directory is backed up: the source key mirrored inside the
/// session.
pub fn backup_dir(session: &str, source_key: &str) -> (r: String)
    ensures
        r@ == join(session@, source_key@),
{
    join_paths(session, source_key)
}

/// The value of decimal digits.
pub open spec fn digits_value(s: Seq<char>) -> nat
    decreases s.len(),
{
    if s.len() == 0 {
        0
    } else {
        digits_value(s.drop_last()) * 10 + (s.last() as nat - 48) as nat
    }
}

pub open spec fn all_digits(s: Seq<char>) -> bool {
    forall|i: int| 0 <= i < s.len() ==> '0' <= #[trigger] s[i] && s[i] <= '9'
}

/// `str::parse::<u64>`: digits after an optional `+`, within range.
pub open spec fn parse_u64_spec(s: Seq<char>) -> Option<u64> {
    let d = if s.len() > 1 && s[0] == '+' {
        s.drop_first()
    } else {
        s
    };
    if d.len() > 0 && all_digits(d) && digits_value(d) <= u64::MAX {
        Some(digits_value(d) as u64)
    } else {
        None
    }
}

/// Parse a `u64` as `str::parse` does.
pub fn parse_u64(s: &[char]) -> (r: Option<u64>)
    ensures
        r == parse_u64_spec(s@),
{
    let start: usize = if s.len() > 1 && s[0] == '+' {
        1
    } else {
        0
    };
    let ghost d = if s@.len() > 1 && s@[0] == '+' {
        s@.drop_first()
    } else {
        s@
    };
    assert(d =~= s@.skip(start as int));
    if start >= s.len() {
        return None;
    }
    let mut v: u64 = 0;
    let mut i = start;
    while i < s.len()
        invariant
            start <= i <= s@.len(),
            start < s@.len(),
            d == s@.skip(start as int),
            d == (if s@.len() > 1 && s@[0] == '+' {
                s@.drop_first()
            } else {
                s@
            }),
            all_digits(s@.subrange(start as int, i as int)),
            v as nat == digits_value(s@.subrange(start as int, i as int)),
        decreases s@.len() - i,
    {
        let c = s[i];
        proof {
            assert(s@.subrange(start as int, i + 1).drop_last() == s@.subrange(start as int, i as int));
            assert(s@.subrange(start as int, i + 1).last() == c);
        }
        if !('0' <= c && c <= '9') {
            proof {
                assert(d[i - start] == c);
                assert(!all_digits(d));
            }
            return None;
        }
        let dig = (c as u32 - 48) as u64;
        if v > (u64::MAX - dig) / 10 {
            proof {
                if all_digits(d) {
                    lemma_digits_grow(d, i - start + 1);
                    assert(d.take(i - start + 1) =~= s@.subrange(start as int, i + 1));
                }
                assert(v * 10 + dig > u64::MAX) by (nonlinear_arith)
                    requires
                        v > (u64::MAX - dig) / 10,
                        dig <= 9,
                ;
            }
            return None;
        }
        assert(v * 10 + dig <= u64::MAX) by (nonlinear_arith)
            requires
                v <= (u64::MAX - dig) / 10,
                dig <= 9,
        ;
        v = v * 10 + dig;
        proof {
            assert(all_digits(s@.subrange(start as int, i + 1)));
        }
        i += 1;
    }
    assert(s@.subrange(start as int, s@.len() as int) == d);
    Some(v)
}

/// A longer run of digits is worth at least as much as its prefix.
proof fn lemma_digits_grow(d: Seq<char>, k: int)
    requires
        0 <= k <= d.len(),
        all_digits(d),
    ensures
        digits_value(d) >= digits_value(d.take(k)),
    decreases d.len(),
{
    if k < d.len() {
        assert(d.drop_last().take(k) == d.take(k));
        assert(all_digits(d.drop_last()));
        lemma_digits_grow(d.drop_last(), k);
    } else {
        assert(d.take(k) == d);
    }
}

/// The Unix seconds a session directory is named after; `0` when its name
/// is not a number.
pub open spec fn session_timestamp_spec(path: Seq<char>) -> u64 {
    match file_name(path) {
        Some(n) => match parse_u64_spec(n) {
            Some(v) => v,
            None => 0,
        },
        None => 0,
    }
}

/// Parse a session directory name back to Unix seconds (best-effort).
pub fn session_timestamp_secs(path: &str) -> (r: u64)
    ensures
        r == session_timestamp_spec(path@),
{
    match file_name_vec(&chars_of(path)) {
        Some(n) => match parse_u64(&n) {
            Some(v) => v,
            None => 0,
        },
        None => 0,
    }
}

/// Summary returned by a clean.
#[derive(Clone, Copy)]
pub struct CleanSummary {
    pub total: usize,
    pub removed: usize,
}

/// Whether a session is older than the threshold at `now`.
pub open spec fn too_old(path: Seq<char>, now: u64, threshold: nat) -> bool {
    let ts = session_timestamp_spec(path);
    ts > 0 && (if now >= ts {
        now - ts
    } else {
        0
    }) > threshold
}

/// No session is older than an age beyond the largest `u64`.
proof fn lemma_none_too_old(sessions: Seq<Seq<char>>, from: int, now: u64, threshold: nat, to: int)
    requires
        threshold > u64::MAX,
    ensures
        old_indices(sessions, from, now, threshold, to) == Seq::<int>::empty(),
    decreases to - from,
{
    if to > from {
        lemma_none_too_old(sessions, from, now, threshold, to - 1);
    }
}

/// The sessions a clean removes, in order: the oldest ones beyond the
/// `keep_last` most recent, then any other older than `older_than_days`.
pub open spec fn clean_plan_spec(
    sessions: Seq<Seq<char>>,
    keep_last: Option<usize>,
    older_than_days: Option<u64>,
    now: u64,
) -> Seq<int> {
    let cutoff: int = match keep_last {
        Some(k) => if sessions.len() >= k {
            sessions.len() - k
        } else {
            0
        },
        None => 0,
    };
    let first = Seq::new(cutoff as nat, |i: int| i);
    match older_than_days {
        None => first,
        Some(days) => first + old_indices(sessions, cutoff, now, (days * 86400) as nat, sessions.len() as int),
    }
}

/// The indices from `from` to `to` whose session is too old.
pub open spec fn old_indices(sessions: Seq<Seq<char>>, from: int, now: u64, threshold: nat, to: int) -> Seq<int>
    decreases to - from,
{
    if to <= from {
        Seq::empty()
    } else {
        let prev = old_indices(sessions, from, now, threshold, to - 1);
        if too_old(sessions[to - 1], now, threshold) {
            prev.push(to - 1)
        } else {
            prev
        }
    }
}

pub open spec fn strings_of(v: Seq<String>) -> Seq<Seq<char>> {
    v.map_values(|s: String| s@)
}

/// Decide which backup sessions a clean removes; `sessions` are sorted
/// oldest first, `now` is the current Unix time.
pub fn clean_plan(sessions: &Vec<String>, keep_last: Option<usize>, older_than_days: Option<u64>, now: u64) -> (r: Vec<usize>)
    ensures
        r@.map_values(|i: usize| i as int) == clean_plan_spec(strings_of(sessions@), keep_last, older_than_days, now),
{
    let ghost ss = strings_of(sessions@);
    let total = sessions.len();
    let cutoff: usize = match keep_last {
        Some(k) => if total >= k {
            total - k
        } else {
            0
        },
        None => 0,
    };
    let mut r: Vec<usize> = Vec::new();
    let mut i: usize = 0;
    while i < cutoff
        invariant
            i <= cutoff <= total,
            total == sessions@.len(),
            r@.map_values(|x: usize| x as int) == Seq::new(i as nat, |j: int| j),
        decreases cutoff - i,
    {
        let ghost r0 = r@;
        r.push(i);
        assert(r@.map_values(|x: usize| x as int) =~= r0.map_values(|x: usize| x as int).push(i as int));
        assert(r@.map_values(|x: usize| x as int) =~= Seq::new((i + 1) as nat, |j: int| j));
        i += 1;
    }
    match older_than_days {
        None => r,
        Some(days) => {
            let threshold = match days.checked_mul(86400) {
                Some(t) => t,
                None => {
                    proof {
                        lemma_none_too_old(ss, cutoff as int, now, (days * 86400) as nat, total as int);
                        assert(r@.map_values(|x: usize| x as int) + Seq::<int>::empty() =~= r@.map_values(
                            |x: usize| x as int,
                        ));
                    }
                    return r;
                },
            };
            let ghost first = r@.map_values(|x: usize| x as int);
            let mut k = cutoff;
            assert(old_indices(ss, cutoff as int, now, threshold as nat, cutoff as int) =~= Seq::<int>::empty());
            assert(first + Seq::<int>::empty() =~= first);
            while k < total
                invariant
                    cutoff <= k <= total,
                    total == sessions@.len(),
                    ss == strings_of(sessions@),
                    r@.map_values(|x: usize| x as int) == first + old_indices(
                        ss,
                        cutoff as int,
                        now,
                        threshold as nat,
                        k as int,
                    ),
                decreases total - k,
            {
                let ts = session_timestamp_secs(sessions[k].as_str());
                let age = if now >= ts {
                    now - ts
                } else {
                    0
                };
                let ghost r0 = r@;
                if ts > 0 && age > threshold {
                    r.push(k);
                    assert(r@.map_values(|x: usize| x as int) =~= r0.map_values(|x: usize| x as int).push(
                        k as int,
                    ));
                }
                k += 1;
            }
            r
        },
    }
}

} // verus!
