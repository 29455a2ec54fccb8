//! The machine-local variable store, kept in `~/.dotling/vars.toml`.
//!
//! Variables in this store take priority over shared defaults in
//! `dotling.toml`.  The file is never committed to git.

use vstd::prelude::*;

use crate::config::{
    good_line, good_lines, key_text, lemma_good_append, lemma_good_pairs, lemma_words, no_hash,
    pair_lines, quoted_line, vars_writable,
};
use crate::path::{file_name_vec, file_name, join, path_extension, extension_vec, push_path_vec};
use crate::text::{
    ascii_lower, ascii_lower_vec, chars_of, clean_line, clean_line_vec, decimal, decimal_vec,
    ends_with, escape, escape_vec, is_quoted, join_lines, kv_is_lone_quote, kv_of, kv_vec,
    lemma_index_of_at, lemma_index_of_none, lemma_kv_quoted, lemma_lines_join, lines, lines_vec,
    push_all, push_str, same, same_str, seqs_of, slice_to_vec, split_once, split_once_vec,
    starts_with, str_eq, string_of, trim, trim_vec, before_char, is_ws, lemma_trim_noop,
};

verus! {

/// Machine-local variable store backed by `~/.dotling/vars.toml`.
#[derive(Debug, Clone)]
pub struct VarStore {
    /// Ordered list of `(key, value)` pairs preserving insertion order.
    vars: Vec<(String, String)>,
}

pub open spec fn pairs_of(v: Seq<(String, String)>) -> Seq<(Seq<char>, Seq<char>)> {
    v.map_values(|p: (String, String)| (p.0@, p.1@))
}

impl View for VarStore {
    type V = Seq<(Seq<char>, Seq<char>)>;

    closed spec fn view(&self) -> Seq<(Seq<char>, Seq<char>)> {
        pairs_of(self.vars@)
    }
}

// ── Specification of the store's operations ───────────────────────

/// Index of the first pair at or after `i` with this key, or -1.
pub open spec fn key_index_from(vs: Seq<(Seq<char>, Seq<char>)>, key: Seq<char>, i: int) -> int
    decreases vs.len() - i,
{
    if i < 0 || i >= vs.len() {
        -1
    } else if vs[i].0 == key {
        i
    } else {
        key_index_from(vs, key, i + 1)
    }
}

/// Index of the first pair with this key, or -1.
pub open spec fn key_index(vs: Seq<(Seq<char>, Seq<char>)>, key: Seq<char>) -> int {
    key_index_from(vs, key, 0)
}

/// The value of the first pair with this key.
pub open spec fn get_spec(vs: Seq<(Seq<char>, Seq<char>)>, key: Seq<char>) -> Option<Seq<char>> {
    let i = key_index(vs, key);
    if i < 0 {
        None
    } else {
        Some(vs[i].1)
    }
}

/// The pairs after setting `key` to `value`: the first pair with the key
/// gets the value, or the pair is appended.
pub open spec fn set_spec(vs: Seq<(Seq<char>, Seq<char>)>, key: Seq<char>, value: Seq<char>) -> Seq<
    (Seq<char>, Seq<char>),
> {
    let i = key_index(vs, key);
    if i < 0 {
        vs.push((key, value))
    } else {
        vs.update(i, (key, value))
    }
}

/// The pairs whose key differs from `key`, in order.
pub open spec fn remove_spec(vs: Seq<(Seq<char>, Seq<char>)>, key: Seq<char>) -> Seq<
    (Seq<char>, Seq<char>),
>
    decreases vs.len(),
{
    if vs.len() == 0 {
        Seq::empty()
    } else {
        let r = remove_spec(vs.drop_last(), key);
        if vs.last().0 == key {
            r
        } else {
            r.push(vs.last())
        }
    }
}

pub proof fn lemma_key_index_from(vs: Seq<(Seq<char>, Seq<char>)>, key: Seq<char>, i: int)
    requires
        0 <= i,
    ensures
        key_index_from(vs, key, i) == -1 || (i <= key_index_from(vs, key, i) < vs.len()
            && vs[key_index_from(vs, key, i)].0 == key),
        key_index_from(vs, key, i) == -1 ==> forall|k: int| i <= k < vs.len() ==> vs[k].0 != key,
        forall|k: int| i <= k < key_index_from(vs, key, i) ==> vs[k].0 != key,
    decreases vs.len() - i,
{
    if i < vs.len() && vs[i].0 != key {
        lemma_key_index_from(vs, key, i + 1);
    }
}

pub proof fn lemma_remove_spec(vs: Seq<(Seq<char>, Seq<char>)>, key: Seq<char>)
    ensures
        remove_spec(vs, key).len() <= vs.len(),
        (remove_spec(vs, key).len() < vs.len()) == (key_index(vs, key) >= 0),
        forall|k: int| 0 <= k < remove_spec(vs, key).len() ==> remove_spec(vs, key)[k].0 != key,
    decreases vs.len(),
{
    lemma_key_index_from(vs, key, 0);
    if vs.len() > 0 {
        let p = vs.drop_last();
        lemma_remove_spec(p, key);
        lemma_key_index_from(p, key, 0);
        if key_index(p, key) >= 0 {
            let i = key_index(p, key);
            assert(vs[i].0 == key);
            assert(key_index(vs, key) >= 0);
        } else if vs.last().0 == key {
            assert(vs[vs.len() - 1].0 == key);
        } else {
            assert forall|k: int| 0 <= k < vs.len() implies vs[k].0 != key by {
                if k < vs.len() - 1 {
                    assert(vs[k] == p[k]);
                }
            }
        }
    }
}

// ── Laws of the store ─────────────────────────────────────────────

/// After `set(key, value)`, `get(key)` gives `value`.
pub proof fn law_vars_get_after_set(vs: Seq<(Seq<char>, Seq<char>)>, key: Seq<char>, value: Seq<char>)
    ensures
        get_spec(set_spec(vs, key, value), key) == Some(value),
{
    lemma_key_index_from(vs, key, 0);
    let s = set_spec(vs, key, value);
    lemma_key_index_from(s, key, 0);
    if key_index(vs, key) < 0 {
        assert(s[vs.len() as int].0 == key);
        assert forall|k: int| 0 <= k < vs.len() implies s[k].0 != key by {
            assert(s[k] == vs[k]);
        }
    } else {
        let i = key_index(vs, key);
        assert forall|k: int| 0 <= k < i implies s[k].0 != key by {
            assert(s[k] == vs[k]);
        }
        assert(s[i].0 == key);
    }
}

/// Setting one key leaves the others' values alone.
pub proof fn law_vars_set_keeps_others(
    vs: Seq<(Seq<char>, Seq<char>)>,
    key: Seq<char>,
    value: Seq<char>,
    other: Seq<char>,
)
    requires
        other != key,
    ensures
        get_spec(set_spec(vs, key, value), other) == get_spec(vs, other),
{
    lemma_key_index_from(vs, other, 0);
    lemma_key_index_from(vs, key, 0);
    let s = set_spec(vs, key, value);
    lemma_key_index_from(s, other, 0);
    assert forall|k: int| 0 <= k < vs.len() implies s[k].0 == other <==> vs[k].0 == other by {
        if k == key_index(vs, key) {
            assert(s[k].0 == key);
        } else {
            assert(s[k] == vs[k]);
        }
    }
    let a = key_index(vs, other);
    let b = key_index(s, other);
    if a >= 0 {
        assert(s[a].0 == other);
        assert(b <= a);
        if b < a {
            assert(vs[b].0 == other);
        }
        assert(b == a);
        assert(s[a] == vs[a]);
    } else {
        if b >= 0 {
            if b < vs.len() {
                assert(vs[b].0 == other);
            } else {
                assert(s[b].0 == key);
            }
        }
    }
}

/// After `remove(key)`, `get(key)` gives nothing.
pub proof fn law_vars_get_after_remove(vs: Seq<(Seq<char>, Seq<char>)>, key: Seq<char>)
    ensures
        get_spec(remove_spec(vs, key), key) is None,
{
    lemma_remove_spec(vs, key);
    lemma_key_index_from(remove_spec(vs, key), key, 0);
}

/// Keys stay distinct under `set`.
pub open spec fn distinct_keys(vs: Seq<(Seq<char>, Seq<char>)>) -> bool {
    forall|i: int, j: int| 0 <= i < j < vs.len() ==> vs[i].0 != vs[j].0
}

pub proof fn law_vars_set_keeps_keys_distinct(
    vs: Seq<(Seq<char>, Seq<char>)>,
    key: Seq<char>,
    value: Seq<char>,
)
    requires
        distinct_keys(vs),
    ensures
        distinct_keys(set_spec(vs, key, value)),
{
    lemma_key_index_from(vs, key, 0);
    let s = set_spec(vs, key, value);
    assert forall|i: int, j: int| 0 <= i < j < s.len() implies s[i].0 != s[j].0 by {
        if key_index(vs, key) < 0 {
            if j == vs.len() {
                assert(s[i] == vs[i]);
            } else {
                assert(s[i] == vs[i] && s[j] == vs[j]);
            }
        } else {
            let x = key_index(vs, key);
            assert(s[i].0 == vs[i].0);
            assert(s[j].0 == vs[j].0);
        }
    }
}

// ── Parsing and writing the store ─────────────────────────────────

/// The reader's state: whether it is in the `[vars]` table and the pairs read
/// so far.
pub enum VarProgress {
    Reading(bool, Seq<(Seq<char>, Seq<char>)>),
}

/// One raw line read. A `key = value` line whose value is a single quote
/// character is neither a quoted nor a bare value, and is passed over.
pub open spec fn var_step(in_vars: bool, acc: Seq<(Seq<char>, Seq<char>)>, raw: Seq<char>) -> VarProgress {
    let line = clean_line(raw);
    if line.len() == 0 {
        VarProgress::Reading(in_vars, acc)
    } else if starts_with(line, "["@) && ends_with(line, "]"@) {
        VarProgress::Reading(trim(line.subrange(1, line.len() - 1)) == "vars"@, acc)
    } else if !in_vars {
        VarProgress::Reading(in_vars, acc)
    } else if kv_is_lone_quote(line) {
        VarProgress::Reading(in_vars, acc)
    } else {
        match kv_of(line, true) {
            Some((k, v)) => VarProgress::Reading(
                in_vars,
                if k.len() > 0 {
                    acc.push((k, v))
                } else {
                    acc
                },
            ),
            None => VarProgress::Reading(in_vars, acc),
        }
    }
}

/// Lines read from state `p`.
pub open spec fn var_run(p: VarProgress, ls: Seq<Seq<char>>) -> VarProgress
    decreases ls.len(),
{
    if ls.len() == 0 {
        p
    } else {
        match var_run(p, ls.drop_last()) {
            VarProgress::Reading(iv, acc) => var_step(iv, acc, ls.last()),
        }
    }
}

/// The pairs of the `[vars]` table of a text.
pub open spec fn parse_vars_spec(content: Seq<char>) -> Seq<(Seq<char>, Seq<char>)> {
    match var_run(VarProgress::Reading(false, Seq::empty()), lines(content)) {
        VarProgress::Reading(_, acc) => acc,
    }
}

pub open spec fn vars_header() -> Seq<char> {
    "# ~/.dotling/vars.toml — machine-local variables, NOT committed to git"@
}

/// The lines of the store's file.
pub open spec fn store_lines(vs: Seq<(Seq<char>, Seq<char>)>) -> Seq<Seq<char>> {
    seq![vars_header(), Seq::empty(), "[vars]"@] + pair_lines(vs)
}

/// The store's file.
pub open spec fn serialize_vars_spec(vs: Seq<(Seq<char>, Seq<char>)>) -> Seq<char> {
    join_lines(store_lines(vs))
}

pub proof fn lemma_var_run_append(p: VarProgress, a: Seq<Seq<char>>, b: Seq<Seq<char>>)
    ensures
        var_run(p, a + b) == var_run(var_run(p, a), b),
    decreases b.len(),
{
    if b.len() == 0 {
        assert(a + b == a);
    } else {
        lemma_var_run_append(p, a, b.drop_last());
        assert((a + b).drop_last() == a + b.drop_last());
        assert((a + b).last() == b.last());
    }
}

pub proof fn lemma_var_pairs(acc: Seq<(Seq<char>, Seq<char>)>, vs: Seq<(Seq<char>, Seq<char>)>)
    requires
        vars_writable(vs),
        forall|i: int| 0 <= i < vs.len() ==> (#[trigger] vs[i]).0.len() > 0,
    ensures
        var_run(VarProgress::Reading(true, acc), pair_lines(vs)) == VarProgress::Reading(true, acc + vs),
    decreases vs.len(),
{
    if vs.len() == 0 {
        assert(acc + vs == acc);
    } else {
        let prev = vs.drop_last();
        assert(vars_writable(prev)) by {
            assert forall|i: int| 0 <= i < prev.len() implies key_text(#[trigger] prev[i].0) && no_hash(prev[i].1) by {
                assert(prev[i] == vs[i]);
            }
        }
        assert forall|i: int| 0 <= i < prev.len() implies (#[trigger] prev[i]).0.len() > 0 by {
            assert(prev[i] == vs[i]);
        }
        lemma_var_pairs(acc, prev);
        let (k, v) = vs.last();
        assert(key_text(vs[vs.len() - 1].0));
        assert(vs[vs.len() - 1].0.len() > 0);
        lemma_kv_quoted(k, v, true);
        let l = quoted_line(k, v);
        let c = clean_line(l);
        assert(pair_lines(vs).drop_last() == pair_lines(prev));
        assert(pair_lines(vs).last() == l);
        reveal_strlit("]");
        assert(c.skip(c.len() - 1)[0] == c.last());
        assert(!ends_with(c, "]"@));
        assert(var_run(VarProgress::Reading(true, acc), pair_lines(prev)) == VarProgress::Reading(true, acc + prev));
        assert(kv_of(c, true) == Some((k, v)));
        assert(var_step(true, acc + prev, l) == VarProgress::Reading(true, (acc + prev).push((k, v))));
        assert((acc + prev).push((k, v)) =~= acc + vs);
    }
}

/// Reading back the store's file gives the same pairs, when every name is
/// non-empty, trimmed and holds no `=`, `#` or newline, and no value holds a
/// `#` (which starts a comment).
pub proof fn law_vars_roundtrip(vs: Seq<(Seq<char>, Seq<char>)>)
    requires
        vars_writable(vs),
        forall|i: int| 0 <= i < vs.len() ==> (#[trigger] vs[i]).0.len() > 0,
    ensures
        parse_vars_spec(serialize_vars_spec(vs)) == vs,
{
    let ls = store_lines(vs);
    let head = seq![vars_header(), Seq::<char>::empty(), "[vars]"@];
    reveal_strlit("# ~/.dotling/vars.toml — machine-local variables, NOT committed to git");
    reveal_strlit("[vars]");
    reveal_strlit("[");
    reveal_strlit("]");
    reveal_strlit("vars");
    assert(good_lines(head));
    lemma_good_pairs(vs);
    lemma_good_append(head, pair_lines(vs));
    lemma_lines_join(ls);
    let p0 = VarProgress::Reading(false, Seq::empty());
    // the comment line
    let h = vars_header();
    lemma_index_of_at(h, '#', 0);
    assert(clean_line(h).len() == 0);
    // the blank line
    lemma_index_of_none(Seq::<char>::empty(), '#');
    assert(clean_line(Seq::<char>::empty()).len() == 0);
    // the table line
    let t = "[vars]"@;
    lemma_index_of_none(t, '#');
    lemma_trim_noop(t);
    assert(clean_line(t) == t);
    assert(t.take(1) =~= "["@);
    assert(t.skip(t.len() - 1) =~= "]"@);
    assert(t.subrange(1, t.len() - 1) =~= "vars"@);
    lemma_trim_noop("vars"@);
    let e = Seq::<(Seq<char>, Seq<char>)>::empty();
    let h1 = seq![vars_header()];
    let h2 = seq![vars_header(), Seq::<char>::empty()];
    assert(h1.drop_last() == Seq::<Seq<char>>::empty());
    assert(var_run(p0, h1) == var_step(false, e, h)) by {
        assert(var_run(p0, Seq::<Seq<char>>::empty()) == p0);
    }
    assert(var_step(false, e, h) == VarProgress::Reading(false, e));
    assert(h2.drop_last() == h1);
    assert(var_run(p0, h2) == VarProgress::Reading(false, e));
    assert(head.drop_last() == h2);
    assert(var_step(false, e, t) == VarProgress::Reading(true, e));
    assert(var_run(p0, head) == VarProgress::Reading(true, e));
    lemma_var_pairs(Seq::empty(), vs);
    lemma_var_run_append(p0, head, pair_lines(vs));
    assert(Seq::<(Seq<char>, Seq<char>)>::empty() + vs == vs);
}

impl VarStore {
    /// An empty store.
    pub fn new() -> (r: VarStore)
        ensures
            r@ == Seq::<(Seq<char>, Seq<char>)>::empty(),
    {
        let r = VarStore { vars: Vec::new() };
        assert(pairs_of(r.vars@) =~= Seq::<(Seq<char>, Seq<char>)>::empty());
        r
    }

    /// Get the value of a variable by key.
    pub fn get(&self, key: &str) -> (r: Option<&str>)
        ensures
            match r {
                Some(v) => get_spec(self@, key@) == Some(v@),
                None => get_spec(self@, key@) is None,
            },
    {
        let ghost vs = self@;
        proof {
            lemma_key_index_from(vs, key@, 0);
        }
        let mut i: usize = 0;
        while i < self.vars.len()
            invariant
                i <= self.vars@.len(),
                vs == pairs_of(self.vars@),
                key_index(vs, key@) == key_index_from(vs, key@, i as int),
            decreases self.vars@.len() - i,
        {
            if str_eq(self.vars[i].0.as_str(), key) {
                return Some(self.vars[i].1.as_str());
            }
            i += 1;
        }
        None
    }

    /// Set a variable. Overwrites an existing key or appends if new.
    pub fn set(&mut self, key: &str, value: &str)
        ensures
            final(self)@ == set_spec(old(self)@, key@, value@),
    {
        let ghost vs = self@;
        let mut i: usize = 0;
        while i < self.vars.len()
            invariant
                i <= self.vars@.len(),
                vs == pairs_of(self.vars@),
                vs == old(self)@,
                key_index(vs, key@) == key_index_from(vs, key@, i as int),
            decreases self.vars@.len() - i,
        {
            if str_eq(self.vars[i].0.as_str(), key) {
                let ghost v0 = self.vars@;
                self.vars.set(i, (key.to_string(), value.to_string()));
                assert(pairs_of(self.vars@) =~= vs.update(i as int, (key@, value@)));
                return ;
            }
            i += 1;
        }
        let ghost v0 = self.vars@;
        self.vars.push((key.to_string(), value.to_string()));
        assert(pairs_of(self.vars@) =~= vs.push((key@, value@)));
    }

    /// Remove a variable. Returns `true` if it was present.
    pub fn remove(&mut self, key: &str) -> (r: bool)
        ensures
            final(self)@ == remove_spec(old(self)@, key@),
            r == (key_index(old(self)@, key@) >= 0),
    {
        let ghost vs = self@;
        proof {
            lemma_remove_spec(vs, key@);
        }
        let mut kept: Vec<(String, String)> = Vec::new();
        let mut i: usize = 0;
        let before = self.vars.len();
        while i < self.vars.len()
            invariant
                i <= self.vars@.len(),
                vs == pairs_of(self.vars@),
                pairs_of(kept@) == remove_spec(vs.take(i as int), key@),
            decreases self.vars@.len() - i,
        {
            proof {
                assert(vs.take(i + 1).drop_last() == vs.take(i as int));
                assert(vs.take(i + 1).last() == vs[i as int]);
            }
            if !str_eq(self.vars[i].0.as_str(), key) {
                let p = (self.vars[i].0.clone(), self.vars[i].1.clone());
                let ghost k0 = kept@;
                kept.push(p);
                assert(pairs_of(kept@) =~= pairs_of(k0).push((p.0@, p.1@)));
            }
            i += 1;
        }
        assert(vs.take(vs.len() as int) == vs);
        self.vars = kept;
        self.vars.len() < before
    }

    /// All `(key, value)` pairs in insertion order.
    pub fn iter(&self) -> (r: Vec<(&str, &str)>)
        ensures
            r@.len() == self@.len(),
            forall|i: int| 0 <= i < r@.len() ==> (r@[i].0@, r@[i].1@) == self@[i],
    {
        let mut r: Vec<(&str, &str)> = Vec::new();
        let mut i: usize = 0;
        while i < self.vars.len()
            invariant
                i <= self.vars@.len(),
                r@.len() == i,
                forall|k: int| 0 <= k < i ==> (r@[k].0@, r@[k].1@) == self@[k],
            decreases self.vars@.len() - i,
        {
            r.push((self.vars[i].0.as_str(), self.vars[i].1.as_str()));
            i += 1;
        }
        r
    }

    /// All vars as `(String, String)` pairs (compatible with `RenderContext::new`).
    pub fn as_pairs(&self) -> (r: Vec<(String, String)>)
        ensures
            pairs_of(r@) == self@,
    {
        let mut r: Vec<(String, String)> = Vec::new();
        let mut i: usize = 0;
        while i < self.vars.len()
            invariant
                i <= self.vars@.len(),
                pairs_of(r@) == self@.take(i as int),
            decreases self.vars@.len() - i,
        {
            let p = (self.vars[i].0.clone(), self.vars[i].1.clone());
            let ghost r0 = r@;
            r.push(p);
            assert(pairs_of(r@) =~= pairs_of(r0).push((p.0@, p.1@)));
            assert(self@.take(i + 1) =~= self@.take(i as int).push(self@[i as int]));
            i += 1;
        }
        assert(self@.take(self@.len() as int) == self@);
        r
    }

    /// Return true if the store contains no variables.
    pub fn is_empty(&self) -> (r: bool)
        ensures
            r == (self@.len() == 0),
    {
        self.vars.len() == 0
    }

    /// Number of variables in the store.
    pub fn len(&self) -> (r: usize)
        ensures
            r == self@.len(),
    {
        self.vars.len()
    }

    /// Path where the store is persisted: `~/.dotling/vars.toml`.
    pub fn path(home: &str) -> (r: String)
        ensures
            r@ == join(join(home@, ".dotling"@), "vars.toml"@),
    {
        let mut p = chars_of(home);
        let d = chars_of(".dotling");
        push_path_vec(&mut p, &d);
        let f = chars_of("vars.toml");
        push_path_vec(&mut p, &f);
        string_of(&p)
    }

    /// Reads the `[vars]` table of a text.
    pub fn parse(content: &str) -> (r: VarStore)
        ensures
            r@ == parse_vars_spec(content@),
    {
        let ls = lines_vec(&chars_of(content));
        let ghost lv = seqs_of(ls@);
        let mut in_vars = false;
        let mut acc: Vec<(String, String)> = Vec::new();
        let mut k: usize = 0;
        assert(lv.take(0) == Seq::<Seq<char>>::empty());
        assert(pairs_of(acc@) =~= Seq::<(Seq<char>, Seq<char>)>::empty());
        while k < ls.len()
            invariant
                k <= ls@.len(),
                lv == seqs_of(ls@),
                lv == lines(content@),
                var_run(VarProgress::Reading(false, Seq::empty()), lv.take(k as int))
                    == VarProgress::Reading(in_vars, pairs_of(acc@)),
            decreases ls@.len() - k,
        {
            proof {
                assert(lv.take(k + 1).drop_last() == lv.take(k as int));
                assert(lv.take(k + 1).last() == ls@[k as int]@);
            }
            in_vars = read_var_line(in_vars, &mut acc, &ls[k]);
            k += 1;
        }
        assert(lv.take(lv.len() as int) == lv);
        VarStore { vars: acc }
    }

    /// The text of the store's file.
    pub fn serialize(&self) -> (r: String)
        ensures
            r@ == serialize_vars_spec(self@),
    {
        let mut out: Vec<char> = Vec::new();
        push_str(&mut out, "# ~/.dotling/vars.toml — machine-local variables, NOT committed to git");
        out.push('\n');
        out.push('\n');
        push_str(&mut out, "[vars]");
        out.push('\n');
        let ghost head = seq![vars_header(), Seq::<char>::empty(), "[vars]"@];
        proof {
            let h1 = seq![vars_header()];
            let h2 = seq![vars_header(), Seq::<char>::empty()];
            assert(h1.drop_last() == Seq::<Seq<char>>::empty());
            assert(join_lines(Seq::<Seq<char>>::empty()) == Seq::<char>::empty());
            assert(join_lines(h1) =~= vars_header() + seq!['\n']);
            assert(h2.drop_last() == h1);
            assert(join_lines(h2) =~= vars_header() + seq!['\n'] + seq!['\n']);
            assert(head.drop_last() == h2);
            assert(join_lines(head) =~= out@);
        }
        let ghost vs = self@;
        let mut i: usize = 0;
        while i < self.vars.len()
            invariant
                i <= self.vars@.len(),
                vs == self@,
                vs == pairs_of(self.vars@),
                out@ == join_lines(head + pair_lines(vs.take(i as int))),
            decreases self.vars@.len() - i,
        {
            let (key, value) = &self.vars[i];
            let ghost o0 = out@;
            push_str(&mut out, key.as_str());
            push_str(&mut out, " = \"");
            let vc = chars_of(value.as_str());
            let e = escape_vec(&vc);
            push_all(&mut out, &e);
            push_str(&mut out, "\"");
            out.push('\n');
            proof {
                let l = quoted_line(key@, value@);
                assert(vs[i as int] == (key@, value@));
                assert(vs.take(i + 1).drop_last() == vs.take(i as int));
                assert(pair_lines(vs.take(i + 1)) == pair_lines(vs.take(i as int)).push(l));
                assert(head + pair_lines(vs.take(i + 1)) == (head + pair_lines(vs.take(i as int))).push(l));
                assert((head + pair_lines(vs.take(i + 1))).drop_last() == head + pair_lines(vs.take(i as int)));
                assert(out@ =~= o0 + l + seq!['\n']);
            }
            i += 1;
        }
        assert(vs.take(vs.len() as int) == vs);
        string_of(&out)
    }
}

/// Reads one line into the store's pairs; whether the reader is now in the
/// `[vars]` table.
fn read_var_line(in_vars: bool, acc: &mut Vec<(String, String)>, raw: &Vec<char>) -> (r: bool)
    ensures
        match var_step(in_vars, pairs_of(old(acc)@), raw@) {
            VarProgress::Reading(iv, a) => r == iv && pairs_of(final(acc)@) == a,
        },
{
    let line = clean_line_vec(raw);
    if line.len() == 0 {
        return in_vars;
    }
    let open = chars_of("[");
    let close = chars_of("]");
    if crate::text::starts_with_exec(&line, &open) && crate::text::ends_with_exec(&line, &close) {
        proof {
            reveal_strlit("[");
            reveal_strlit("]");
            assert(line@.len() >= 2) by {
                if line@.len() < 2 {
                    assert(line@.take(1)[0] == line@[0]);
                    assert(line@.skip(line@.len() - 1)[0] == line@[0]);
                }
            }
        }
        let inner = slice_to_vec(&line, 1, line.len() - 1);
        let name = trim_vec(&inner);
        return same_str(&name, "vars");
    }
    if !in_vars {
        return in_vars;
    }
    match split_once_vec(&line, '=') {
        Some((_, rest)) => {
            let raw_val = trim_vec(&rest);
            if crate::text::is_lone_quote(&raw_val) {
                return in_vars;
            }
        },
        None => {},
    }
    match kv_vec(&line, true) {
        Some((k, v)) => {
            if k.len() > 0 {
                let p = (string_of(&k), string_of(&v));
                let ghost a0 = acc@;
                acc.push(p);
                assert(pairs_of(acc@) =~= pairs_of(a0).push((k@, v@)));
            }
            in_vars
        },
        None => in_vars,
    }
}

// ── Bulk import ───────────────────────────────────────────────────

/// `s` without leading and trailing `c`s (`str::trim_matches`).
pub open spec fn trim_char(s: Seq<char>, c: char) -> Seq<char>
    decreases s.len(),
{
    if s.len() > 0 && s[0] == c {
        trim_char(s.drop_first(), c)
    } else if s.len() > 0 && s.last() == c {
        trim_char(s.drop_last(), c)
    } else {
        s
    }
}

/// One line of a `.env` file read.
pub open spec fn env_step(acc: Seq<(Seq<char>, Seq<char>)>, raw: Seq<char>) -> Seq<(Seq<char>, Seq<char>)> {
    let line = trim(raw);
    if line.len() == 0 || line[0] == '#' {
        acc
    } else {
        match split_once(line, '=') {
            Some((k, v)) => {
                let key = trim(k);
                let val = trim_char(trim_char(trim(v), '"'), '\'');
                if key.len() > 0 {
                    acc.push((key, val))
                } else {
                    acc
                }
            },
            None => acc,
        }
    }
}

/// The pairs of the first `k` lines of a `.env` file.
pub open spec fn env_pairs(ls: Seq<Seq<char>>, k: nat) -> Seq<(Seq<char>, Seq<char>)>
    decreases k,
{
    if k == 0 || k > ls.len() {
        Seq::empty()
    } else {
        env_step(env_pairs(ls, (k - 1) as nat), ls[k - 1])
    }
}

/// Text without the character `c` is kept whole by `trim_char`.
pub proof fn lemma_trim_char_none(s: Seq<char>, c: char)
    requires
        forall|k: int| 0 <= k < s.len() ==> s[k] != c,
    ensures
        trim_char(s, c) == s,
{
    if s.len() > 0 {
        assert(s.last() == s[s.len() - 1]);
    }
}

/// `c`, text without `c`, `c`: `trim_char` gives the text.
pub proof fn lemma_trim_char_around(s: Seq<char>, c: char)
    requires
        forall|k: int| 0 <= k < s.len() ==> s[k] != c,
    ensures
        trim_char(seq![c] + s + seq![c], c) == s,
{
    let w = seq![c] + s + seq![c];
    let t = s + seq![c];
    assert(w.drop_first() =~= t);
    assert(trim_char(w, c) == trim_char(t, c));
    if s.len() == 0 {
        assert(t =~= seq![c]);
        assert(t.drop_first() =~= Seq::<char>::empty());
        assert(trim_char(t, c) == trim_char(t.drop_first(), c));
        assert(s =~= Seq::<char>::empty());
    } else {
        assert(t[0] == s[0]);
        assert(t.drop_last() =~= s);
        assert(trim_char(t, c) == trim_char(s, c));
        lemma_trim_char_none(s, c);
    }
}

/// A value in double or single quotes, holding neither quote character,
/// loses its quotes and nothing else.
pub proof fn lemma_unquote(v: Seq<char>, q: char)
    requires
        q == '"' || q == '\'',
        forall|k: int| 0 <= k < v.len() ==> v[k] != '"' && v[k] != '\'',
    ensures
        trim_char(trim_char(seq![q] + v + seq![q], '"'), '\'') == v,
{
    let w = seq![q] + v + seq![q];
    if q == '"' {
        lemma_trim_char_around(v, '"');
        lemma_trim_char_none(v, '\'');
    } else {
        assert(w[0] == '\'' && w.last() == '\'');
        assert(trim_char(w, '"') == w);
        lemma_trim_char_around(v, '\'');
    }
}

proof fn lemma_env_pairs_prefix(ls: Seq<Seq<char>>, l: Seq<char>, k: nat)
    requires
        k <= ls.len(),
    ensures
        env_pairs(ls.push(l), k) == env_pairs(ls, k),
    decreases k,
{
    if k > 0 {
        lemma_env_pairs_prefix(ls, l, (k - 1) as nat);
        assert(ls.push(l)[k - 1] == ls[k - 1]);
    }
}

/// A `.env` line `KEY=value` with the value in double or single quotes adds
/// the key with the value inside the quotes: appended to a file, it appends
/// that pair to what the file gives (for a key that is trimmed and holds no
/// `=`, `#` at its start or newline, and a value with no quote character or
/// newline).
pub proof fn law_env_quoted_value(ls: Seq<Seq<char>>, key: Seq<char>, v: Seq<char>, q: char)
    requires
        good_lines(ls),
        q == '"' || q == '\'',
        key.len() > 0,
        trim(key) == key,
        key[0] != '#',
        forall|k: int| 0 <= k < key.len() ==> key[k] != '=' && key[k] != '\n',
        forall|k: int| 0 <= k < v.len() ==> v[k] != '"' && v[k] != '\'' && v[k] != '\n',
    ensures
        parse_env_spec(join_lines(ls.push(key + seq!['=', q] + v + seq![q]))) == parse_env_spec(
            join_lines(ls),
        ).push((key, v)),
{
    let l = key + seq!['=', q] + v + seq![q];
    let n = key.len() as int;
    assert forall|k: int| 0 <= k < l.len() implies l[k] != '\n' by {
        if k < n {
            assert(l[k] == key[k]);
        } else if n + 2 <= k < n + 2 + v.len() {
            assert(l[k] == v[k - n - 2]);
        }
    }
    assert(l.last() == q);
    let all = ls.push(l);
    assert forall|i: int, k: int| 0 <= i < all.len() && 0 <= k < all[i].len() implies all[i][k] != '\n' by {
        if i < ls.len() {
            assert(all[i] == ls[i]);
            assert(good_line(ls[i]));
        }
    }
    assert forall|i: int| 0 <= i < all.len() implies all[i].len() == 0 || all[i].last() != '\r' by {
        if i < ls.len() {
            assert(all[i] == ls[i]);
            assert(good_line(ls[i]));
        }
    }
    assert forall|i: int, k: int| 0 <= i < ls.len() && 0 <= k < ls[i].len() implies ls[i][k] != '\n' by {
        assert(good_line(ls[i]));
    }
    assert forall|i: int| 0 <= i < ls.len() implies ls[i].len() == 0 || ls[i].last() != '\r' by {
        assert(good_line(ls[i]));
    }
    lemma_lines_join(all);
    lemma_lines_join(ls);
    lemma_env_pairs_prefix(ls, l, ls.len());
    // the line itself
    crate::text::lemma_trimmed_ends(key);
    assert(l[0] == key[0]);
    lemma_trim_noop(l);
    assert forall|k: int| 0 <= k < n implies l[k] != '=' by {
        assert(l[k] == key[k]);
    }
    lemma_index_of_at(l, '=', n);
    assert(l.take(n) =~= key);
    let rest = seq![q] + v + seq![q];
    assert(l.skip(n + 1) =~= rest);
    assert(rest[0] == q && rest.last() == q);
    lemma_trim_noop(rest);
    lemma_unquote(v, q);
    assert(all[all.len() - 1] == l);
}

/// The pairs of a `.env` file.
pub open spec fn parse_env_spec(content: Seq<char>) -> Seq<(Seq<char>, Seq<char>)> {
    env_pairs(lines(content), lines(content).len())
}

pub fn trim_char_vec(s: &[char], c: char) -> (r: Vec<char>)
    ensures
        r@ == trim_char(s@, c),
{
    let mut i: usize = 0;
    let mut j: usize = s.len();
    assert(s@.subrange(0, s@.len() as int) == s@);
    while i < j && s[i] == c
        invariant
            i <= j <= s@.len(),
            j == s@.len(),
            trim_char(s@, c) == trim_char(s@.subrange(i as int, j as int), c),
        decreases j - i,
    {
        assert(s@.subrange(i as int, j as int).drop_first() == s@.subrange(i + 1, j as int));
        i += 1;
    }
    while i < j && s[j - 1] == c
        invariant
            i <= j <= s@.len(),
            i < j ==> s@[i as int] != c,
            trim_char(s@, c) == trim_char(s@.subrange(i as int, j as int), c),
        decreases j - i,
    {
        let ghost t = s@.subrange(i as int, j as int);
        assert(t[0] == s@[i as int]);
        assert(t.drop_last() == s@.subrange(i as int, j - 1));
        j -= 1;
    }
    slice_to_vec(s, i, j)
}

/// Reads the pairs of a `.env` file: `KEY=value` lines, with blank and `#`
/// lines skipped and quotes stripped from values.
pub fn parse_env_file(content: &str) -> (r: Vec<(String, String)>)
    ensures
        pairs_of(r@) == parse_env_spec(content@),
{
    let ls = lines_vec(&chars_of(content));
    let ghost lv = seqs_of(ls@);
    let mut pairs: Vec<(String, String)> = Vec::new();
    let mut k: usize = 0;
    assert(pairs_of(pairs@) =~= Seq::<(Seq<char>, Seq<char>)>::empty());
    while k < ls.len()
        invariant
            k <= ls@.len(),
            lv == seqs_of(ls@),
            lv == lines(content@),
            pairs_of(pairs@) == env_pairs(lv, k as nat),
        decreases ls@.len() - k,
    {
        let ghost a0 = pairs_of(pairs@);
        assert(lv[k as int] == ls@[k as int]@);
        let line = trim_vec(&ls[k]);
        if line.len() == 0 || line[0] == '#' {
            k += 1;
            continue;
        }
        match split_once_vec(&line, '=') {
            Some((kp, vp)) => {
                let key = trim_vec(&kp);
                let v1 = trim_vec(&vp);
                let v2 = trim_char_vec(&v1, '"');
                let val = trim_char_vec(&v2, '\'');
                if key.len() > 0 {
                    let p = (string_of(&key), string_of(&val));
                    let ghost p0 = pairs@;
                    pairs.push(p);
                    assert(pairs_of(pairs@) =~= pairs_of(p0).push((key@, val@)));
                }
            },
            None => {},
        }
        k += 1;
    }
    pairs
}

/// Whether a path names a `.env` file: its extension is `env` (any case) or
/// its file name is `.env`.
pub open spec fn is_env_path(path: Seq<char>) -> bool {
    (match path_extension(path) {
        Some(e) => ascii_lower(e) == "env"@,
        None => false,
    }) || file_name(path) == Some(".env"@)
}

/// The pairs of an imported file: a `.env` file, or any text with a `[vars]` table.
pub open spec fn import_pairs(content: Seq<char>, path: Seq<char>) -> Seq<(Seq<char>, Seq<char>)> {
    if is_env_path(path) {
        parse_env_spec(content)
    } else {
        parse_vars_spec(content)
    }
}

/// Pairs set one after another.
pub open spec fn set_all(vs: Seq<(Seq<char>, Seq<char>)>, ps: Seq<(Seq<char>, Seq<char>)>) -> Seq<
    (Seq<char>, Seq<char>),
>
    decreases ps.len(),
{
    if ps.len() == 0 {
        vs
    } else {
        set_spec(set_all(vs, ps.drop_last()), ps.last().0, ps.last().1)
    }
}

fn is_env(path: &str) -> (r: bool)
    ensures
        r == is_env_path(path@),
{
    let p = chars_of(path);
    let by_ext = match extension_vec(&p) {
        Some(e) => {
            let l = ascii_lower_vec(&e);
            same_str(&l, "env")
        },
        None => false,
    };
    let by_name = match file_name_vec(&p) {
        Some(f) => same_str(&f, ".env"),
        None => false,
    };
    by_ext || by_name
}

/// Import variables from the text of a file at `path`: a `.env` file, or
/// TOML with a `[vars]` section.  Returns the number of variables imported.
pub fn import_from_text(store: &mut VarStore, content: &str, path: &str) -> (r: usize)
    ensures
        r == import_pairs(content@, path@).len(),
        final(store)@ == set_all(old(store)@, import_pairs(content@, path@)),
{
    let pairs = if is_env(path) {
        parse_env_file(content)
    } else {
        VarStore::parse(content).as_pairs()
    };
    let ghost ps = pairs_of(pairs@);
    let ghost s0 = store@;
    let mut i: usize = 0;
    while i < pairs.len()
        invariant
            i <= pairs@.len(),
            ps == pairs_of(pairs@),
            store@ == set_all(s0, ps.take(i as int)),
        decreases pairs@.len() - i,
    {
        let (k, v) = &pairs[i];
        store.set(k.as_str(), v.as_str());
        assert(ps.take(i + 1).drop_last() == ps.take(i as int));
        assert(ps.take(i + 1).last() == ps[i as int]);
        i += 1;
    }
    assert(ps.take(ps.len() as int) == ps);
    pairs.len()
}

// ── Doctor helpers ────────────────────────────────────────────────

/// The warning for a committed default that looks like a real value.
pub open spec fn real_value_warning(
    key: Seq<char>,
    value: Seq<char>,
    value_bytes: nat,
    local: Seq<(Seq<char>, Seq<char>)>,
    username: Option<Seq<char>>,
) -> Option<Seq<char>> {
    if get_spec(local, key) == Some(value) {
        Some("`"@ + key + " = \""@ + value + "\"` matches your local vars.toml — use a placeholder instead"@)
    } else if value.contains('@') && value.contains('.') {
        Some("`"@ + key + "` value looks like an email address — move to vars.toml"@)
    } else if value_bytes > 40 {
        Some("`"@ + key + "` value is very long ("@ + decimal(value_bytes) + " chars) — may be a secret, move to vars.toml"@)
    } else if username matches Some(u) && u.len() > 0 && value == u {
        Some("`"@ + key + " = \""@ + value + "\"` matches current username — use a placeholder like \"user\""@)
    } else {
        None
    }
}

fn contains_char(s: &[char], c: char) -> (r: bool)
    ensures
        r == s@.contains(c),
{
    let mut i: usize = 0;
    while i < s.len()
        invariant
            i <= s@.len(),
            forall|k: int| 0 <= k < i ==> s@[k] != c,
        decreases s@.len() - i,
    {
        if s[i] == c {
            assert(s@[i as int] == c);
            return true;
        }
        i += 1;
    }
    false
}

/// Heuristically check if a committed `[vars]` default value looks like a
/// real value that should be in `vars.toml` instead.  `username` is the
/// current user's name, where the environment gives one.
pub fn looks_like_real_value(
    key: &str,
    value: &str,
    local_store: &VarStore,
    username: Option<&str>,
) -> (r: Option<String>)
    ensures
        match r {
            Some(m) => real_value_warning(key@, value@, value.len() as nat, local_store@, match username {
                Some(u) => Some(u@),
                None => None,
            }) == Some(m@),
            None => real_value_warning(key@, value@, value.len() as nat, local_store@, match username {
                Some(u) => Some(u@),
                None => None,
            }) is None,
        },
{
    if let Some(local_val) = local_store.get(key) {
        if str_eq(local_val, value) {
            let mut v: Vec<char> = Vec::new();
            push_str(&mut v, "`");
            push_str(&mut v, key);
            push_str(&mut v, " = \"");
            push_str(&mut v, value);
            push_str(&mut v, "\"` matches your local vars.toml — use a placeholder instead");
            return Some(string_of(&v));
        }
    }
    let vc = chars_of(value);
    if contains_char(&vc, '@') && contains_char(&vc, '.') {
        let mut v: Vec<char> = Vec::new();
        push_str(&mut v, "`");
        push_str(&mut v, key);
        push_str(&mut v, "` value looks like an email address — move to vars.toml");
        return Some(string_of(&v));
    }
    let n = value.len();
    if n > 40 {
        let mut v: Vec<char> = Vec::new();
        push_str(&mut v, "`");
        push_str(&mut v, key);
        push_str(&mut v, "` value is very long (");
        let d = decimal_vec(n);
        push_all(&mut v, &d);
        push_str(&mut v, " chars) — may be a secret, move to vars.toml");
        return Some(string_of(&v));
    }
    if let Some(u) = username {
        if !u.is_empty() && str_eq(value, u) {
            let mut v: Vec<char> = Vec::new();
            push_str(&mut v, "`");
            push_str(&mut v, key);
            push_str(&mut v, " = \"");
            push_str(&mut v, value);
            push_str(&mut v, "\"` matches current username — use a placeholder like \"user\"");
            return Some(string_of(&v));
        }
    }
    None
}

impl Default for VarStore {
    fn default() -> (r: VarStore)
        ensures
            r@ == Seq::<(Seq<char>, Seq<char>)>::empty(),
    {
        VarStore::new()
    }
}

} // verus!
