//! The files of a directory tree as dotling uses them: hidden ones left out
//! unless asked for, in path order. Listing the directories is the caller's.

use vstd::prelude::*;

use crate::fingerprint::{lemma_lex_total, lemma_lex_trans, lex_less, lex_lt};
use crate::path::{join, join_paths};
use crate::text::{chars_of, string_of};

verus! {

broadcast use vstd::seq_lib::to_multiset_insert;

/// A relative path with a component that starts with `.`.
pub open spec fn is_hidden(rel: Seq<char>) -> bool {
    exists|i: int| 0 <= i < rel.len() && #[trigger] rel[i] == '.' && (i == 0 || rel[i - 1] == '/')
}

/// The relative paths kept: all of them, or those without a hidden component.
pub open spec fn kept(rels: Seq<Seq<char>>, include_hidden: bool) -> Seq<Seq<char>>
    decreases rels.len(),
{
    if rels.len() == 0 {
        Seq::empty()
    } else if include_hidden || !is_hidden(rels.last()) {
        kept(rels.drop_last(), include_hidden).push(rels.last())
    } else {
        kept(rels.drop_last(), include_hidden)
    }
}

/// The text a path is ordered by: the separator ranks below every other
/// character, so that paths compare component by component.
pub open spec fn path_key(p: Seq<char>) -> Seq<char> {
    p.map_values(|c: char| if c == '/' { '\0' } else { c })
}

/// In path order.
pub open spec fn path_sorted(s: Seq<Seq<char>>) -> bool {
    forall|i: int, j: int| 0 <= i < j < s.len() ==> !lex_lt(#[trigger] path_key(s[j]), #[trigger] path_key(s[i]))
}

fn key_of(p: &str) -> (r: Vec<char>)
    ensures
        r@ == path_key(p@),
{
    let cs = chars_of(p);
    let mut v: Vec<char> = Vec::new();
    let mut i: usize = 0;
    while i < cs.len()
        invariant
            i <= cs@.len(),
            cs@ == p@,
            v@ == cs@.take(i as int).map_values(|c: char| if c == '/' { '\0' } else { c }),
        decreases cs@.len() - i,
    {
        v.push(if cs[i] == '/' { '\0' } else { cs[i] });
        assert(cs@.take(i + 1).map_values(|c: char| if c == '/' { '\0' } else { c }) =~= cs@.take(
            i as int,
        ).map_values(|c: char| if c == '/' { '\0' } else { c }).push(if cs@[i as int] == '/' {
            '\0'
        } else {
            cs@[i as int]
        }));
        i += 1;
    }
    assert(cs@.take(cs@.len() as int) =~= cs@);
    v
}

fn hidden(p: &str) -> (r: bool)
    ensures
        r == is_hidden(p@),
{
    let cs = chars_of(p);
    let mut i: usize = 0;
    while i < cs.len()
        invariant
            i <= cs@.len(),
            cs@ == p@,
            forall|k: int| 0 <= k < i ==> !(#[trigger] cs@[k] == '.' && (k == 0 || cs@[k - 1] == '/')),
        decreases cs@.len() - i,
    {
        if cs[i] == '.' && (i == 0 || cs[i - 1] == '/') {
            return true;
        }
        i += 1;
    }
    false
}

pub open spec fn strings_view(v: Seq<String>) -> Seq<Seq<char>> {
    v.map_values(|s: String| s@)
}

/// Put paths in path order.
pub fn sort_paths(paths: &Vec<String>) -> (r: Vec<String>)
    ensures
        path_sorted(strings_view(r@)),
        strings_view(r@).to_multiset() == strings_view(paths@).to_multiset(),
{
    let ghost ps = strings_view(paths@);
    let mut out: Vec<String> = Vec::new();
    let mut keys: Vec<Vec<char>> = Vec::new();
    let mut i: usize = 0;
    assert(strings_view(out@) =~= ps.take(0));
    while i < paths.len()
        invariant
            i <= paths@.len(),
            ps == strings_view(paths@),
            keys@.len() == out@.len(),
            forall|k: int| 0 <= k < keys@.len() ==> (#[trigger] keys@[k])@ == path_key(out@[k]@),
            path_sorted(strings_view(out@)),
            strings_view(out@).to_multiset() == ps.take(i as int).to_multiset(),
        decreases paths@.len() - i,
    {
        let ghost os = strings_view(out@);
        let k = key_of(paths[i].as_str());
        let mut p: usize = 0;
        while p < out.len() && !lex_less(&k, &keys[p])
            invariant
                p <= out@.len(),
                keys@.len() == out@.len(),
                os == strings_view(out@),
                forall|q: int| 0 <= q < keys@.len() ==> (#[trigger] keys@[q])@ == path_key(out@[q]@),
                forall|q: int| 0 <= q < p ==> !lex_lt(k@, #[trigger] path_key(os[q])),
            decreases out@.len() - p,
        {
            p += 1;
        }
        proof {
            if p < os.len() {
                assert(lex_lt(k@, path_key(os[p as int])));
            }
        }
        let s = paths[i].clone();
        assert(s@ == ps[i as int]);
        let ghost sv = s@;
        out.insert(p, s);
        keys.insert(p, k);
        let ghost ns = strings_view(out@);
        assert(ns =~= os.insert(p as int, sv));
        assert forall|a: int, b: int| 0 <= a < b < ns.len() implies !lex_lt(
            #[trigger] path_key(ns[b]),
            #[trigger] path_key(ns[a]),
        ) by {
            let kv = path_key(sv);
            if a < p && b == p {
                assert(ns[a] == os[a]);
            } else if a < p && b > p {
                assert(ns[a] == os[a]);
                assert(ns[b] == os[b - 1]);
            } else if a == p && b > p {
                assert(ns[b] == os[b - 1]);
                lemma_lex_total(kv, path_key(os[p as int]));
                if b - 1 > p {
                    lemma_lex_total(path_key(os[b - 1]), path_key(os[p as int]));
                    if lex_lt(path_key(os[b - 1]), kv) {
                        lemma_lex_total(path_key(os[b - 1]), kv);
                        if path_key(os[b - 1]) != path_key(os[p as int]) {
                            assert(lex_lt(path_key(os[p as int]), path_key(os[b - 1])));
                            lemma_lex_trans(kv, path_key(os[p as int]), path_key(os[b - 1]));
                            lemma_lex_total(kv, path_key(os[b - 1]));
                        }
                    }
                } else {
                    lemma_lex_total(kv, path_key(os[p as int]));
                }
            } else if a > p {
                assert(ns[a] == os[a - 1]);
                assert(ns[b] == os[b - 1]);
            } else {
                assert(ns[a] == os[a]);
                assert(ns[b] == os[b]);
            }
        }
        assert(ps.take(i + 1) =~= ps.take(i as int).push(ps[i as int]));
        assert(ps.take(i as int).push(ps[i as int]).to_multiset() =~= ps.take(i as int).to_multiset().insert(
            ps[i as int],
        )) by {
            broadcast use vstd::seq_lib::to_multiset_build;
        }
        i += 1;
    }
    assert(ps.take(ps.len() as int) =~= ps);
    out
}

/// The files under `root`, from their paths relative to it as listed by
/// the caller: hidden ones left out unless `include_hidden`, the rest in
/// path order, each joined to `root`.
pub fn walk_dir(root: &str, rels: &Vec<String>, include_hidden: bool) -> (r: Vec<String>)
    ensures
        exists|s: Seq<Seq<char>>|
            path_sorted(s) && s.to_multiset() == kept(strings_view(rels@), include_hidden).to_multiset()
                && strings_view(r@) == s.map_values(|x: Seq<char>| join(root@, x)),
{
    let ghost rs = strings_view(rels@);
    let mut chosen: Vec<String> = Vec::new();
    let mut i: usize = 0;
    while i < rels.len()
        invariant
            i <= rels@.len(),
            rs == strings_view(rels@),
            strings_view(chosen@) == kept(rs.take(i as int), include_hidden),
        decreases rels@.len() - i,
    {
        assert(rs.take(i + 1).drop_last() =~= rs.take(i as int));
        assert(rs.take(i + 1).last() == rs[i as int]);
        if include_hidden || !hidden(rels[i].as_str()) {
            let ghost before = strings_view(chosen@);
            chosen.push(rels[i].clone());
            assert(strings_view(chosen@) =~= before.push(rs[i as int]));
        }
        i += 1;
    }
    assert(rs.take(rs.len() as int) =~= rs);
    let sorted = sort_paths(&chosen);
    let ghost ss = strings_view(sorted@);
    let mut out: Vec<String> = Vec::new();
    let mut j: usize = 0;
    while j < sorted.len()
        invariant
            j <= sorted@.len(),
            ss == strings_view(sorted@),
            strings_view(out@) == ss.take(j as int).map_values(|x: Seq<char>| join(root@, x)),
        decreases sorted@.len() - j,
    {
        let full = join_paths(root, sorted[j].as_str());
        let ghost before = strings_view(out@);
        out.push(full);
        assert(strings_view(out@) =~= before.push(join(root@, ss[j as int])));
        assert(ss.take(j + 1).map_values(|x: Seq<char>| join(root@, x)) =~= ss.take(j as int).map_values(
            |x: Seq<char>| join(root@, x),
        ).push(join(root@, ss[j as int])));
        j += 1;
    }
    assert(ss.take(ss.len() as int) =~= ss);
    out
}

} // verus!
