//! `dotling status`: the status symbol, badge and tally of each entry from
//! its deployment state, and how entries are grouped for display.

use vstd::prelude::*;

use crate::deploy::EntryState;
use crate::fingerprint::{lemma_lex_total, lemma_lex_trans, lex_less, lex_lt};
use crate::text::{before_char, before_char_vec, chars_of, push_str, str_eq, string_of};
use crate::ui::{Status, SyncBadge};

verus! {

/// How an entry counts in the summary.
#[derive(Debug, Clone, Copy, PartialEq, Eq, Structural)]
pub enum Tally {
    Good,
    Warning,
    Error,
}

/// The status of an entry: a deployed template or encrypted entry is in
/// sync only when its recorded fingerprint matches (`in_sync`), unless its
/// target path cannot be had (`target_known` false).
pub open spec fn entry_status_spec(
    state: EntryState,
    template: bool,
    encrypted: bool,
    target_known: bool,
    in_sync: Option<bool>,
) -> (Status, SyncBadge, Tally) {
    match state {
        EntryState::Deployed => {
            let kind = if template {
                Status::Template
            } else if encrypted {
                Status::Encrypted
            } else {
                Status::Good
            };
            if (template || encrypted) && target_known && in_sync != Some(true) {
                (kind, SyncBadge::NeedsSync, Tally::Warning)
            } else {
                (kind, SyncBadge::InSync, Tally::Good)
            }
        },
        EntryState::Modified => (Status::Modified, SyncBadge::HasDiff, Tally::Warning),
        EntryState::Missing => (Status::Missing, SyncBadge::NeedsSync, Tally::Error),
        EntryState::Broken => (Status::Broken, SyncBadge::NeedsSync, Tally::Error),
        EntryState::Conflict => (Status::Conflict, SyncBadge::NeedsSync, Tally::Warning),
    }
}

pub fn entry_status(
    state: EntryState,
    template: bool,
    encrypted: bool,
    target_known: bool,
    in_sync: Option<bool>,
) -> (r: (Status, SyncBadge, Tally))
    ensures
        r == entry_status_spec(state, template, encrypted, target_known, in_sync),
{
    match state {
        EntryState::Deployed => {
            let kind = if template {
                Status::Template
            } else if encrypted {
                Status::Encrypted
            } else {
                Status::Good
            };
            let synced = match in_sync {
                Some(b) => b,
                None => false,
            };
            if (template || encrypted) && target_known && !synced {
                (kind, SyncBadge::NeedsSync, Tally::Warning)
            } else {
                (kind, SyncBadge::InSync, Tally::Good)
            }
        },
        EntryState::Modified => (Status::Modified, SyncBadge::HasDiff, Tally::Warning),
        EntryState::Missing => (Status::Missing, SyncBadge::NeedsSync, Tally::Error),
        EntryState::Broken => (Status::Broken, SyncBadge::NeedsSync, Tally::Error),
        EntryState::Conflict => (Status::Conflict, SyncBadge::NeedsSync, Tally::Warning),
    }
}

/// The target shown for an entry meant for another platform: its target
/// and, in brackets, the platform it is for.
pub fn inactive_target(target: &str, os: Option<&str>) -> (r: String)
    ensures
        r@ == target@ + " ("@ + (match os {
            Some(o) => o@,
            None => "all"@,
        }) + ")"@,
{
    let mut v: Vec<char> = Vec::new();
    push_str(&mut v, target);
    push_str(&mut v, " (");
    match os {
        Some(o) => push_str(&mut v, o),
        None => push_str(&mut v, "all"),
    }
    push_str(&mut v, ")");
    string_of(&v)
}

// ── Grouping by category ──────────────────────────────────────────

/// The category of an entry: its source path up to the first `/`.
pub open spec fn category(source: Seq<char>) -> Seq<char> {
    before_char(source, '/')
}

pub open spec fn groups_view(v: Seq<(String, Vec<usize>)>) -> Seq<(Seq<char>, Seq<usize>)> {
    v.map_values(|g: (String, Vec<usize>)| (g.0@, g.1@))
}

/// `gs` groups the first `n` sources by category: categories in strictly
/// increasing order, each with the increasing, non-empty list of the
/// indices of its sources, and every index in the group of its category.
pub open spec fn groups_ok(srcs: Seq<Seq<char>>, gs: Seq<(Seq<char>, Seq<usize>)>, n: int) -> bool {
    &&& forall|a: int, b: int| 0 <= a < b < gs.len() ==> lex_lt(#[trigger] gs[a].0, #[trigger] gs[b].0)
    &&& forall|g: int| 0 <= g < gs.len() ==> (#[trigger] gs[g]).1.len() > 0
    &&& forall|g: int, x: int, y: int|
        0 <= g < gs.len() && 0 <= x < y < gs[g].1.len() ==> #[trigger] gs[g].1[x] < #[trigger] gs[g].1[y]
    &&& forall|g: int, x: int|
        0 <= g < gs.len() && 0 <= x < gs[g].1.len() ==> #[trigger] gs[g].1[x] < n && srcs.len() >= n && category(
            srcs[gs[g].1[x] as int],
        ) == gs[g].0
    &&& forall|i: int| 0 <= i < n ==> #[trigger] in_group(srcs, gs, i)
}

/// Index `i` is listed in a group of its category.
pub open spec fn in_group(srcs: Seq<Seq<char>>, gs: Seq<(Seq<char>, Seq<usize>)>, i: int) -> bool {
    exists|g: int| 0 <= g < gs.len() && gs[g].0 == category(srcs[i]) && #[trigger] gs[g].1.contains(i as usize)
}

pub open spec fn strings_view(v: Seq<String>) -> Seq<Seq<char>> {
    v.map_values(|s: String| s@)
}

/// The entries grouped by category, categories in order, for display.
pub fn group_by_category(sources: &Vec<String>) -> (r: Vec<(String, Vec<usize>)>)
    ensures
        groups_ok(strings_view(sources@), groups_view(r@), sources@.len() as int),
{
    let ghost srcs = strings_view(sources@);
    let mut groups: Vec<(String, Vec<usize>)> = Vec::new();
    let mut i: usize = 0;
    while i < sources.len()
        invariant
            i <= sources@.len(),
            srcs == strings_view(sources@),
            groups_ok(srcs, groups_view(groups@), i as int),
        decreases sources@.len() - i,
    {
        let ghost gs = groups_view(groups@);
        let cat = string_of(&before_char_vec(&chars_of(sources[i].as_str()), '/'));
        assert(cat@ == category(srcs[i as int]));
        let mut p: usize = 0;
        while p < groups.len() && lex_less(&chars_of(groups[p].0.as_str()), &chars_of(cat.as_str()))
            invariant
                p <= groups@.len(),
                gs == groups_view(groups@),
                forall|k: int| 0 <= k < p ==> lex_lt(#[trigger] gs[k].0, cat@),
            decreases groups@.len() - p,
        {
            p += 1;
        }
        let found = p < groups.len() && str_eq(groups[p].0.as_str(), cat.as_str());
        if found {
            let ghost old_g = gs[p as int];
            groups[p].1.push(i);
            let ghost ns = groups_view(groups@);
            assert(ns =~= gs.update(p as int, (old_g.0, old_g.1.push(i))));
            assert forall|j: int| 0 <= j < i + 1 implies #[trigger] in_group(srcs, ns, j) by {
                if j < i {
                    assert(in_group(srcs, gs, j));
                    let g = choose|g: int|
                        0 <= g < gs.len() && gs[g].0 == category(srcs[j]) && #[trigger] gs[g].1.contains(
                            j as usize,
                        );
                    let x = choose|x: int| 0 <= x < gs[g].1.len() && gs[g].1[x] == j as usize;
                    assert(ns[g].1[x] == j as usize);
                    assert(ns[g].1.contains(j as usize));
                } else {
                    assert(ns[p as int].1[old_g.1.len() as int] == i);
                    assert(ns[p as int].1.contains(i as usize));
                }
            }
            assert forall|g: int, x: int, y: int|
                0 <= g < ns.len() && 0 <= x < y < ns[g].1.len() implies #[trigger] ns[g].1[x]
                < #[trigger] ns[g].1[y] by {
                if g == p && y == old_g.1.len() {
                    assert(gs[g].1[x] < i);
                }
            }
        } else {
            proof {
                if p < gs.len() {
                    lemma_lex_total(gs[p as int].0, cat@);
                    assert(lex_lt(cat@, gs[p as int].0));
                }
                assert forall|k: int| p <= k < gs.len() implies lex_lt(cat@, #[trigger] gs[k].0) by {
                    if k > p {
                        lemma_lex_trans(cat@, gs[p as int].0, gs[k].0);
                    }
                }
            }
            let one = vec![i];
            assert(one@ =~= seq![i]);
            let ghost cv = cat@;
            groups.insert(p, (cat, one));
            let ghost ns = groups_view(groups@);
            assert(ns =~= gs.insert(p as int, (cv, seq![i])));
            assert forall|a: int, b: int| 0 <= a < b < ns.len() implies lex_lt(#[trigger] ns[a].0, #[trigger] ns[b].0) by {
                if a < p && b == p {
                } else if a < p && b > p {
                    lemma_lex_trans(gs[a].0, cv, gs[b - 1].0);
                } else if a == p && b > p {
                } else if a > p {
                    assert(ns[a] == gs[a - 1]);
                    assert(ns[b] == gs[b - 1]);
                } else {
                }
            }
            assert forall|j: int| 0 <= j < i + 1 implies #[trigger] in_group(srcs, ns, j) by {
                if j < i {
                    assert(in_group(srcs, gs, j));
                    let g = choose|g: int|
                        0 <= g < gs.len() && gs[g].0 == category(srcs[j]) && #[trigger] gs[g].1.contains(
                            j as usize,
                        );
                    let g2 = if g < p {
                        g
                    } else {
                        g + 1
                    };
                    assert(ns[g2] == gs[g]);
                    assert(ns[g2].1.contains(j as usize));
                } else {
                    assert(ns[p as int].1[0] == i);
                    assert(ns[p as int].1.contains(i as usize));
                    assert(ns[p as int].0 == category(srcs[j]));
                }
            }
            assert forall|g: int, x: int|
                0 <= g < ns.len() && 0 <= x < ns[g].1.len() implies #[trigger] ns[g].1[x] < i + 1
                && srcs.len() >= i + 1 && category(srcs[ns[g].1[x] as int]) == ns[g].0 by {
                if g < p {
                    assert(ns[g] == gs[g]);
                } else if g > p {
                    assert(ns[g] == gs[g - 1]);
                }
            }
            assert forall|g: int| 0 <= g < ns.len() implies (#[trigger] ns[g]).1.len() > 0 by {
                if g < p {
                    assert(ns[g] == gs[g]);
                } else if g > p {
                    assert(ns[g] == gs[g - 1]);
                }
            }
            assert forall|g: int, x: int, y: int|
                0 <= g < ns.len() && 0 <= x < y < ns[g].1.len() implies #[trigger] ns[g].1[x]
                < #[trigger] ns[g].1[y] by {
                if g < p {
                    assert(ns[g] == gs[g]);
                } else if g > p {
                    assert(ns[g] == gs[g - 1]);
                }
            }
        }
        i += 1;
    }
    groups
}

} // verus!
