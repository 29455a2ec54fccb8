//! The `dotling vars` commands: setting and removing local values, where a
//! value comes from, which template variables are unresolved, and the
//! messages and listings shown. Loading and saving the store is the
//! caller's.

use vstd::prelude::*;

use crate::template::{resolve_spec, scan_from, scan_variables, var_ref_of, ContextView, RenderContext, VarRef};
use crate::text::{
    chars_of, decimal, decimal_vec, push_all, push_str, slice_to_vec, str_eq, string_of, trim,
    trim_vec,
};
use crate::ui::{
    join_comma, notice, paint, paint_spec, Notice, NoticeKind, BOLD, CYAN, DIM, GREEN, RED, YELLOW,
};
use crate::vars::{
    get_spec, import_from_text, import_pairs, is_env_path, key_index, pairs_of, remove_spec, set_all,
    set_spec, VarStore,
};
use crate::config::{parse_config, parse_config_spec};

verus! {

/// What `dotling vars set` reports.
pub open spec fn set_message(is_new: bool, key: Seq<char>, value: Seq<char>) -> Seq<char> {
    if is_new {
        "set "@ + key + " = \""@ + value + "\"  (saved to ~/.dotling/vars.toml)"@
    } else {
        "updated "@ + key + " = \""@ + value + "\""@
    }
}

/// Set a local variable; returns what the user is told.
pub fn run_set(store: &mut VarStore, key: &str, value: &str) -> (r: String)
    ensures
        final(store)@ == set_spec(old(store)@, key@, value@),
        r@ == set_message(get_spec(old(store)@, key@) is None, key@, value@),
{
    let is_new = store.get(key).is_none();
    store.set(key, value);
    let mut v: Vec<char> = Vec::new();
    if is_new {
        push_str(&mut v, "set ");
        push_str(&mut v, key);
        push_str(&mut v, " = \"");
        push_str(&mut v, value);
        push_str(&mut v, "\"  (saved to ~/.dotling/vars.toml)");
    } else {
        push_str(&mut v, "updated ");
        push_str(&mut v, key);
        push_str(&mut v, " = \"");
        push_str(&mut v, value);
        push_str(&mut v, "\"");
    }
    string_of(&v)
}

/// What `dotling vars unset` reports.
pub open spec fn unset_message(removed: bool, key: Seq<char>) -> Seq<char> {
    if removed {
        "unset "@ + key
    } else {
        "`"@ + key + "` was not set in the local store"@
    }
}

/// Remove a local variable; returns whether it was there (and the store
/// must be saved) and what the user is told.
pub fn run_unset(store: &mut VarStore, key: &str) -> (r: (bool, String))
    ensures
        final(store)@ == remove_spec(old(store)@, key@),
        r.0 == (key_index(old(store)@, key@) >= 0),
        r.1@ == unset_message(r.0, key@),
{
    let removed = store.remove(key);
    let mut v: Vec<char> = Vec::new();
    if removed {
        push_str(&mut v, "unset ");
        push_str(&mut v, key);
    } else {
        push_str(&mut v, "`");
        push_str(&mut v, key);
        push_str(&mut v, "` was not set in the local store");
    }
    (removed, string_of(&v))
}

/// Where a variable's value comes from.
#[derive(Debug, Clone, PartialEq, Eq)]
pub enum VarAnswer {
    /// A `dotling.` built-in.
    Builtin(String),
    /// A `var.` value, from the local store or the config's defaults.
    Var { value: String, local: bool },
}

pub open spec fn not_set_message(key: Seq<char>) -> Seq<char> {
    "variable `"@ + key + "` is not set"@
}

/// Look a variable up as `dotling vars get` does: built-ins first, then
/// `var.` values.
pub fn run_get(ctx: &RenderContext, store: &VarStore, key: &str) -> (r: Result<VarAnswer, crate::error::Error>)
    ensures
        match resolve_spec(ctx@, "dotling"@, key@) {
            Some(b) => r matches Ok(VarAnswer::Builtin(v)) && v@ == b,
            None => match resolve_spec(ctx@, "var"@, key@) {
                Some(x) => r matches Ok(VarAnswer::Var { value, local }) && value@ == x && local == (
                get_spec(store@, key@) is Some),
                None => r matches Err(crate::error::Error::User(m)) && m@ == not_set_message(key@),
            },
        },
{
    match ctx.resolve("dotling", key) {
        Some(b) => Ok(VarAnswer::Builtin(b)),
        None => match ctx.resolve("var", key) {
            Some(x) => Ok(VarAnswer::Var { value: x, local: store.get(key).is_some() }),
            None => {
                let mut v: Vec<char> = Vec::new();
                push_str(&mut v, "variable `");
                push_str(&mut v, key);
                push_str(&mut v, "` is not set");
                Err(crate::error::Error::User(string_of(&v)))
            },
        },
    }
}

/// The rows `dotling vars list` shows: name, value and where it comes from;
/// the built-ins, then the local values, then the defaults not overridden.
pub open spec fn list_rows_spec(
    builtins: Seq<(Seq<char>, Seq<char>)>,
    local: Seq<(Seq<char>, Seq<char>)>,
    defaults: Seq<(Seq<char>, Seq<char>)>,
) -> Seq<(Seq<char>, Seq<char>, Seq<char>)> {
    builtins.map_values(|p: (Seq<char>, Seq<char>)| ("dotling."@ + p.0, p.1, "[auto]"@)) + local.map_values(
        |p: (Seq<char>, Seq<char>)| ("var."@ + p.0, p.1, "[local]"@),
    ) + default_rows(local, defaults, defaults.len() as int)
}

/// The defaults among the first `k` whose key is neither local nor an
/// earlier default's.
pub open spec fn default_rows(
    local: Seq<(Seq<char>, Seq<char>)>,
    defaults: Seq<(Seq<char>, Seq<char>)>,
    k: int,
) -> Seq<(Seq<char>, Seq<char>, Seq<char>)>
    decreases k,
{
    if k <= 0 {
        Seq::empty()
    } else {
        let prev = default_rows(local, defaults, k - 1);
        let p = defaults[k - 1];
        if key_index(local, p.0) >= 0 || key_index(defaults.take(k - 1), p.0) >= 0 {
            prev
        } else {
            prev.push(("var."@ + p.0, p.1, "[default]"@))
        }
    }
}

pub open spec fn rows_view(v: Seq<(String, String, String)>) -> Seq<(Seq<char>, Seq<char>, Seq<char>)> {
    v.map_values(|r: (String, String, String)| (r.0@, r.1@, r.2@))
}

fn cat(a: &str, b: &str) -> (r: String)
    ensures
        r@ == a@ + b@,
{
    let mut v: Vec<char> = Vec::new();
    push_str(&mut v, a);
    push_str(&mut v, b);
    string_of(&v)
}

fn has_key(vs: &Vec<(String, String)>, upto: usize, key: &str) -> (r: bool)
    requires
        upto <= vs@.len(),
    ensures
        r == (key_index(pairs_of(vs@).take(upto as int), key@) >= 0),
{
    let ghost ps = pairs_of(vs@).take(upto as int);
    proof {
        crate::vars::lemma_key_index_from(ps, key@, 0);
    }
    let mut i: usize = 0;
    while i < upto
        invariant
            i <= upto <= vs@.len(),
            ps == pairs_of(vs@).take(upto as int),
            forall|k: int| 0 <= k < i ==> ps[k].0 != key@,
        decreases upto - i,
    {
        if str_eq(vs[i].0.as_str(), key) {
            proof {
                assert(ps[i as int].0 == key@);
                crate::vars::lemma_key_index_from(ps, key@, 0);
            }
            return true;
        }
        i += 1;
    }
    proof {
        crate::vars::lemma_key_index_from(ps, key@, 0);
        if key_index(ps, key@) >= 0 {
            assert(ps[key_index(ps, key@)].0 == key@);
        }
    }
    false
}

/// The rows of `dotling vars list`.
pub fn list_rows(ctx: &RenderContext, local: &Vec<(String, String)>, defaults: &Vec<(String, String)>) -> (r: Vec<(String, String, String)>)
    ensures
        rows_view(r@) == list_rows_spec(ctx@.builtins, pairs_of(local@), pairs_of(defaults@)),
{
    let ghost bs = ctx@.builtins;
    let ghost ls = pairs_of(local@);
    let ghost ds = pairs_of(defaults@);
    let mut r: Vec<(String, String, String)> = Vec::new();
    let mut i: usize = 0;
    while i < ctx.builtins.len()
        invariant
            i <= ctx.builtins@.len(),
            bs == pairs_of(ctx.builtins@),
            rows_view(r@) == bs.take(i as int).map_values(
                |p: (Seq<char>, Seq<char>)| ("dotling."@ + p.0, p.1, "[auto]"@),
            ),
        decreases ctx.builtins@.len() - i,
    {
        let row = (cat("dotling.", ctx.builtins[i].0.as_str()), ctx.builtins[i].1.clone(), "[auto]".to_string());
        let ghost r0 = r@;
        r.push(row);
        assert(rows_view(r@) =~= rows_view(r0).push((row.0@, row.1@, row.2@)));
        assert(bs.take(i + 1) =~= bs.take(i as int).push(bs[i as int]));
        assert(bs.take(i + 1).map_values(|p: (Seq<char>, Seq<char>)| ("dotling."@ + p.0, p.1, "[auto]"@))
            =~= bs.take(i as int).map_values(|p: (Seq<char>, Seq<char>)| ("dotling."@ + p.0, p.1, "[auto]"@)).push(
            ("dotling."@ + bs[i as int].0, bs[i as int].1, "[auto]"@),
        ));
        i += 1;
    }
    assert(bs.take(bs.len() as int) == bs);
    let ghost part1 = rows_view(r@);
    let mut j: usize = 0;
    assert(part1 + ls.take(0).map_values(|p: (Seq<char>, Seq<char>)| ("var."@ + p.0, p.1, "[local]"@)) =~= part1);
    while j < local.len()
        invariant
            j <= local@.len(),
            ls == pairs_of(local@),
            rows_view(r@) == part1 + ls.take(j as int).map_values(
                |p: (Seq<char>, Seq<char>)| ("var."@ + p.0, p.1, "[local]"@),
            ),
        decreases local@.len() - j,
    {
        let row = (cat("var.", local[j].0.as_str()), local[j].1.clone(), "[local]".to_string());
        let ghost r0 = r@;
        r.push(row);
        assert(rows_view(r@) =~= rows_view(r0).push((row.0@, row.1@, row.2@)));
        assert(ls.take(j + 1) =~= ls.take(j as int).push(ls[j as int]));
        assert(ls.take(j + 1).map_values(|p: (Seq<char>, Seq<char>)| ("var."@ + p.0, p.1, "[local]"@))
            =~= ls.take(j as int).map_values(|p: (Seq<char>, Seq<char>)| ("var."@ + p.0, p.1, "[local]"@)).push(
            ("var."@ + ls[j as int].0, ls[j as int].1, "[local]"@),
        ));
        j += 1;
    }
    assert(ls.take(ls.len() as int) == ls);
    let ghost part2 = rows_view(r@);
    let mut k: usize = 0;
    assert(part2 + default_rows(ls, ds, 0) =~= part2);
    while k < defaults.len()
        invariant
            k <= defaults@.len(),
            ls == pairs_of(local@),
            ds == pairs_of(defaults@),
            rows_view(r@) == part2 + default_rows(ls, ds, k as int),
        decreases defaults@.len() - k,
    {
        let key = defaults[k].0.as_str();
        assert(ds[k as int].0 == key@);
        assert(pairs_of(local@).take(local@.len() as int) == ls);
        let in_local = has_key(local, local.len(), key);
        let earlier = has_key(defaults, k, key);
        if !in_local && !earlier {
            let row = (cat("var.", key), defaults[k].1.clone(), "[default]".to_string());
            let ghost r0 = r@;
            r.push(row);
            assert(rows_view(r@) =~= rows_view(r0).push((row.0@, row.1@, row.2@)));
        }
        k += 1;
    }
    r
}

/// The missing references of one template for `dotling vars check`:
/// `dotling.k` for an unknown built-in, `var.k` for an unresolved variable.
pub open spec fn check_missing(refs: Seq<VarRef>, ctx: ContextView, k: int) -> Seq<Seq<char>>
    decreases k,
{
    if k <= 0 {
        Seq::empty()
    } else {
        let prev = check_missing(refs, ctx, k - 1);
        let r = refs[k - 1];
        if r.1 == "dotling"@ && get_spec(ctx.builtins, r.2) is None {
            prev.push("dotling."@ + r.2)
        } else if r.1 == "var"@ && resolve_spec(ctx, "var"@, r.2) is None {
            prev.push("var."@ + r.2)
        } else {
            prev
        }
    }
}

/// How many variables a template uses, and which of them are missing.
pub fn check_template(template_text: &str, ctx: &RenderContext) -> (r: (usize, Vec<String>))
    ensures
        ({
            let refs = scan_from(template_text@, Seq::empty());
            &&& r.0 == refs.len()
            &&& r.1@.map_values(|s: String| s@) == check_missing(refs, ctx@, refs.len() as int)
        }),
{
    let vars = scan_variables(template_text);
    let ghost refs = scan_from(template_text@, Seq::empty());
    let mut missing: Vec<String> = Vec::new();
    let mut i: usize = 0;
    assert(missing@.map_values(|s: String| s@) =~= Seq::<Seq<char>>::empty());
    while i < vars.len()
        invariant
            i <= vars@.len(),
            vars@.map_values(|v: crate::template::TemplateVar| var_ref_of(v)) == refs,
            missing@.map_values(|s: String| s@) == check_missing(refs, ctx@, i as int),
        decreases vars@.len() - i,
    {
        let v = &vars[i];
        assert(refs[i as int] == var_ref_of(*v));
        proof {
            reveal_strlit("dotling");
            assert(resolve_spec(ctx@, "dotling"@, v.key@) == get_spec(ctx@.builtins, v.key@));
        }
        let ghost m0 = missing@;
        if str_eq(v.namespace.as_str(), "dotling") && ctx.resolve("dotling", v.key.as_str()).is_none() {
            missing.push(cat("dotling.", v.key.as_str()));
            assert(missing@.map_values(|s: String| s@) =~= m0.map_values(|s: String| s@).push(
                "dotling."@ + v.key@,
            ));
        } else if str_eq(v.namespace.as_str(), "var") && ctx.resolve("var", v.key.as_str()).is_none() {
            missing.push(cat("var.", v.key.as_str()));
            assert(missing@.map_values(|s: String| s@) =~= m0.map_values(|s: String| s@).push(
                "var."@ + v.key@,
            ));
        }
        i += 1;
    }
    (vars.len(), missing)
}

/// The unresolved `var.` keys across the readable, unencrypted template
/// sources (in entry order), each once, in order of first appearance.
pub open spec fn collect_missing_spec(texts: Seq<Seq<char>>, ctx: ContextView) -> Seq<Seq<char>>
    decreases texts.len(),
{
    if texts.len() == 0 {
        Seq::empty()
    } else {
        let prev = collect_missing_spec(texts.drop_last(), ctx);
        let refs = scan_from(texts.last(), Seq::empty());
        add_missing(prev, refs, ctx, refs.len() as int)
    }
}

pub open spec fn add_missing(acc: Seq<Seq<char>>, refs: Seq<VarRef>, ctx: ContextView, k: int) -> Seq<Seq<char>>
    decreases k,
{
    if k <= 0 {
        acc
    } else {
        let prev = add_missing(acc, refs, ctx, k - 1);
        let r = refs[k - 1];
        if r.1 == "var"@ && resolve_spec(ctx, "var"@, r.2) is None && !prev.contains(r.2) {
            prev.push(r.2)
        } else {
            prev
        }
    }
}

fn contains_string(v: &Vec<String>, s: &str) -> (r: bool)
    ensures
        r == v@.map_values(|x: String| x@).contains(s@),
{
    let ghost vs = v@.map_values(|x: String| x@);
    let mut i: usize = 0;
    while i < v.len()
        invariant
            i <= v@.len(),
            vs == v@.map_values(|x: String| x@),
            forall|k: int| 0 <= k < i ==> vs[k] != s@,
        decreases v@.len() - i,
    {
        if str_eq(v[i].as_str(), s) {
            assert(vs[i as int] == s@);
            return true;
        }
        i += 1;
    }
    false
}

/// The unresolved `var.` keys of the template sources given.
pub fn collect_missing_vars(texts: &Vec<String>, ctx: &RenderContext) -> (r: Vec<String>)
    ensures
        r@.map_values(|s: String| s@) == collect_missing_spec(texts@.map_values(|s: String| s@), ctx@),
{
    let ghost ts = texts@.map_values(|s: String| s@);
    let mut missing: Vec<String> = Vec::new();
    let mut t: usize = 0;
    assert(missing@.map_values(|s: String| s@) =~= Seq::<Seq<char>>::empty());
    while t < texts.len()
        invariant
            t <= texts@.len(),
            ts == texts@.map_values(|s: String| s@),
            missing@.map_values(|s: String| s@) == collect_missing_spec(ts.take(t as int), ctx@),
        decreases texts@.len() - t,
    {
        let vars = scan_variables(texts[t].as_str());
        let ghost refs = scan_from(ts[t as int], Seq::empty());
        let ghost acc = missing@.map_values(|s: String| s@);
        let mut i: usize = 0;
        while i < vars.len()
            invariant
                i <= vars@.len(),
                vars@.map_values(|v: crate::template::TemplateVar| var_ref_of(v)) == refs,
                missing@.map_values(|s: String| s@) == add_missing(acc, refs, ctx@, i as int),
            decreases vars@.len() - i,
        {
            let v = &vars[i];
            assert(refs[i as int] == var_ref_of(*v));
            let ghost m0 = missing@;
            if str_eq(v.namespace.as_str(), "var") && ctx.resolve("var", v.key.as_str()).is_none()
                && !contains_string(&missing, v.key.as_str()) {
                missing.push(v.key.clone());
                assert(missing@.map_values(|s: String| s@) =~= m0.map_values(|s: String| s@).push(v.key@));
            }
            i += 1;
        }
        proof {
            assert(ts.take(t + 1).drop_last() == ts.take(t as int));
            assert(ts.take(t + 1).last() == ts[t as int]);
        }
        t += 1;
    }
    assert(ts.take(ts.len() as int) == ts);
    missing
}

/// The value a first-sync prompt sets: the typed value, else the config's
/// default, else nothing.
pub open spec fn bootstrap_value_spec(defaults: Seq<(Seq<char>, Seq<char>)>, key: Seq<char>, input: Seq<char>) -> Option<Seq<char>> {
    if trim(input).len() > 0 {
        Some(trim(input))
    } else {
        get_spec(defaults, key)
    }
}

pub fn bootstrap_value(defaults: &Vec<(String, String)>, key: &str, input: &str) -> (r: Option<String>)
    ensures
        match bootstrap_value_spec(pairs_of(defaults@), key@, input@) {
            Some(v) => r matches Some(s) && s@ == v,
            None => r is None,
        },
{
    let t = trim_vec(&crate::text::chars_of(input));
    if t.len() > 0 {
        return Some(string_of(&t));
    }
    let ghost ds = pairs_of(defaults@);
    proof {
        crate::vars::lemma_key_index_from(ds, key@, 0);
    }
    let mut i: usize = 0;
    while i < defaults.len()
        invariant
            i <= defaults@.len(),
            ds == pairs_of(defaults@),
            key_index(ds, key@) == crate::vars::key_index_from(ds, key@, i as int),
            trim(input@).len() == 0,
        decreases defaults@.len() - i,
    {
        if str_eq(defaults[i].0.as_str(), key) {
            assert(ds[i as int].0 == key@);
            let v = defaults[i].1.clone();
            assert(v@ == ds[i as int].1);
            return Some(v);
        }
        i += 1;
    }
    None
}

/// What `dotling vars import` reports.
pub fn import_message(count: usize, path: &str) -> (r: String)
    ensures
        r@ == "imported "@ + decimal(count as nat) + " variable"@ + (if count == 1 {
            Seq::<char>::empty()
        } else {
            "s"@
        }) + " from "@ + path@,
{
    let mut v: Vec<char> = Vec::new();
    push_str(&mut v, "imported ");
    push_all(&mut v, &decimal_vec(count));
    push_str(&mut v, " variable");
    if count != 1 {
        push_str(&mut v, "s");
    }
    push_str(&mut v, " from ");
    push_str(&mut v, path);
    proof {
        reveal_strlit("s");
    }
    string_of(&v)
}

/// A value escaped for export: backslashes, then double quotes.
pub open spec fn export_escape(s: Seq<char>) -> Seq<char>
    decreases s.len(),
{
    if s.len() == 0 {
        Seq::empty()
    } else {
        export_escape(s.drop_last()) + if s.last() == '\\' {
            seq!['\\', '\\']
        } else if s.last() == '"' {
            seq!['\\', '"']
        } else {
            seq![s.last()]
        }
    }
}

pub open spec fn export_lines(vs: Seq<(Seq<char>, Seq<char>)>) -> Seq<char>
    decreases vs.len(),
{
    if vs.len() == 0 {
        "[vars]\n"@
    } else {
        export_lines(vs.drop_last()) + vs.last().0 + " = \""@ + export_escape(vs.last().1) + "\"\n"@
    }
}

/// What `dotling vars export` prints, or `None` when there is nothing.
pub fn export_text(store: &VarStore) -> (r: Option<String>)
    ensures
        store@.len() == 0 ==> r is None,
        store@.len() > 0 ==> (r matches Some(t) && t@ == export_lines(store@)),
{
    if store.is_empty() {
        return None;
    }
    let pairs = store.as_pairs();
    let ghost ps = pairs_of(pairs@);
    let mut v: Vec<char> = Vec::new();
    push_str(&mut v, "[vars]\n");
    let mut i: usize = 0;
    while i < pairs.len()
        invariant
            i <= pairs@.len(),
            ps == pairs_of(pairs@),
            v@ == export_lines(ps.take(i as int)),
        decreases pairs@.len() - i,
    {
        push_str(&mut v, pairs[i].0.as_str());
        push_str(&mut v, " = \"");
        let val = crate::text::chars_of(pairs[i].1.as_str());
        let ghost v0 = v@;
        let mut k: usize = 0;
        while k < val.len()
            invariant
                k <= val@.len(),
                v@ == v0 + export_escape(val@.take(k as int)),
            decreases val@.len() - k,
        {
            let c = val[k];
            if c == '\\' {
                v.push('\\');
                v.push('\\');
            } else if c == '"' {
                v.push('\\');
                v.push('"');
            } else {
                v.push(c);
            }
            proof {
                assert(val@.take(k + 1).drop_last() == val@.take(k as int));
                assert(val@.take(k + 1).last() == c);
            }
            k += 1;
        }
        assert(val@.take(val@.len() as int) == val@);
        push_str(&mut v, "\"\n");
        proof {
            assert(ps.take(i + 1).drop_last() == ps.take(i as int));
            assert(ps.take(i + 1).last() == ps[i as int]);
        }
        i += 1;
    }
    assert(ps.take(ps.len() as int) == ps);
    Some(string_of(&v))
}

/// `dotling vars import`: the variables of the file at `path` (its text
/// `content`) are set in the local store, one after the other; returns what
/// is reported.
pub fn run_import(store: &mut VarStore, content: &str, path: &str) -> (r: String)
    ensures
        final(store)@ == set_all(old(store)@, import_pairs(content@, path@)),
        r@ == "imported "@ + decimal(import_pairs(content@, path@).len()) + " variable"@ + (if import_pairs(
            content@,
            path@,
        ).len() == 1 {
            Seq::<char>::empty()
        } else {
            "s"@
        }) + " from "@ + path@,
{
    let count = import_from_text(store, content, path);
    import_message(count, path)
}

/// The shared `[vars]` defaults of the repo's `dotling.toml` (its text, or
/// `None` when there is no repo or no file); none when it does not parse.
pub fn load_config_vars(config: Option<&str>, config_path: &str) -> (r: Vec<(String, String)>)
    ensures
        match config {
            Some(t) => match parse_config_spec(t@, config_path@) {
                Ok(c) => pairs_of(r@) == c.vars,
                Err(_) => r@.len() == 0,
            },
            None => r@.len() == 0,
        },
{
    match config {
        None => Vec::new(),
        Some(t) => match parse_config(t, config_path) {
            Ok(c) => {
                assert(pairs_of(c.vars@) =~= crate::config::pairs_view(c.vars@));
                c.vars
            },
            Err(_) => Vec::new(),
        },
    }
}

// ── dotling vars check ────────────────────────────────────────────

/// What was found for a template entry's source in the repo.
#[derive(Debug, Clone)]
pub enum TemplateSource {
    /// The source file does not exist.
    NotFound,
    /// The template is encrypted; it is not read.
    Encrypted,
    /// The template's text.
    Text(String),
}

/// A missing reference as the key to give `dotling vars set`.
pub open spec fn strip_var(m: Seq<char>) -> Seq<char> {
    if crate::text::starts_with(m, "var."@) {
        m.skip(4)
    } else {
        m
    }
}

pub open spec fn fix_line(m: Seq<char>, enabled: bool) -> Seq<char> {
    "     "@ + paint_spec(DIM@, "→"@, enabled) + " dotling vars set "@ + strip_var(m) + " <value>"@
}

pub open spec fn fix_lines(missing: Seq<Seq<char>>, enabled: bool) -> Seq<Seq<char>>
    decreases missing.len(),
{
    if missing.len() == 0 {
        Seq::empty()
    } else {
        fix_lines(missing.drop_last(), enabled).push(fix_line(missing.last(), enabled))
    }
}

/// The lines `dotling vars check` shows for one template entry, and whether
/// it passed.
pub open spec fn check_entry_spec(source: Seq<char>, st: TemplateSource, ctx: ContextView, enabled: bool) -> (
    Seq<Seq<char>>,
    bool,
) {
    let name = paint_spec(CYAN@, source, enabled);
    match st {
        TemplateSource::NotFound => (
            seq!["  "@ + paint_spec(RED@, "✗"@, enabled) + " "@ + name + " — source file not found in repo"@],
            false,
        ),
        TemplateSource::Encrypted => (
            seq![
                "  "@ + paint_spec(YELLOW@, "⚠"@, enabled) + " "@ + name
                    + " — encrypted template (cannot validate without vault password)"@,
            ],
            true,
        ),
        TemplateSource::Text(t) => {
            let refs = scan_from(t@, Seq::empty());
            if refs.len() == 0 {
                (
                    seq!["  "@ + paint_spec(YELLOW@, "⚠"@, enabled) + " "@ + name + " — no template variables found"@],
                    true,
                )
            } else {
                let missing = check_missing(refs, ctx, refs.len() as int);
                if missing.len() == 0 {
                    (
                        seq![
                            "  "@ + paint_spec(GREEN@, "✓"@, enabled) + " "@ + name + "  —  "@ + decimal(refs.len())
                                + " variable"@ + (if refs.len() == 1 {
                                Seq::<char>::empty()
                            } else {
                                "s"@
                            }) + " — all resolved"@,
                        ],
                        true,
                    )
                } else {
                    (
                        seq!["  "@ + paint_spec(RED@, "✗"@, enabled) + " "@ + name + "  —  missing: "@ + join_comma(missing)]
                            + fix_lines(missing, enabled),
                        false,
                    )
                }
            }
        },
    }
}

/// The divider under the title and after the entries.
pub open spec fn divider() -> Seq<char> {
    Seq::new(66, |i: int| '─')
}

/// The lines for the first `k` entries, and whether all of them passed.
pub open spec fn check_body(entries: Seq<(String, TemplateSource)>, ctx: ContextView, enabled: bool, k: int) -> (
    Seq<Seq<char>>,
    bool,
)
    decreases k,
{
    if k <= 0 {
        (Seq::empty(), true)
    } else {
        let prev = check_body(entries, ctx, enabled, k - 1);
        let cur = check_entry_spec(entries[k - 1].0@, entries[k - 1].1, ctx, enabled);
        (prev.0 + cur.0, prev.1 && cur.1)
    }
}

/// The report of `dotling vars check` over the template entries: a title,
/// the lines of each entry, a closing divider; and whether every template
/// is valid.
pub open spec fn check_report_spec(entries: Seq<(String, TemplateSource)>, ctx: ContextView, enabled: bool) -> (
    Seq<Seq<char>>,
    bool,
) {
    let body = check_body(entries, ctx, enabled, entries.len() as int);
    (
        seq![Seq::<char>::empty(), "  "@ + paint_spec(BOLD@, "Template variable check"@, enabled), "  "@ + paint_spec(
            DIM@,
            divider(),
            enabled,
        )] + body.0 + seq!["  "@ + paint_spec(DIM@, divider(), enabled)],
        body.1,
    )
}

/// The lines and verdict of `dotling vars check`.
pub struct CheckReport {
    pub lines: Vec<String>,
    pub all_ok: bool,
}

pub open spec fn lines_view(v: Seq<String>) -> Seq<Seq<char>> {
    v.map_values(|s: String| s@)
}

fn join_parts(parts: &Vec<String>) -> (r: String)
    ensures
        r@ == join_comma(lines_view(parts@)),
{
    let ghost ps = lines_view(parts@);
    let mut v: Vec<char> = Vec::new();
    let mut i: usize = 0;
    while i < parts.len()
        invariant
            i <= parts@.len(),
            ps == lines_view(parts@),
            v@ == join_comma(ps.take(i as int)),
        decreases parts@.len() - i,
    {
        if i > 0 {
            push_str(&mut v, ", ");
        }
        push_str(&mut v, parts[i].as_str());
        proof {
            assert(ps.take(i + 1).drop_last() =~= ps.take(i as int));
            assert(ps.take(i + 1).last() == ps[i as int]);
            if i == 0 {
                assert(ps.take(1) =~= seq![ps[0]]);
            }
        }
        i += 1;
    }
    assert(ps.take(ps.len() as int) =~= ps);
    string_of(&v)
}

fn entry_lines(source: &str, st: &TemplateSource, ctx: &RenderContext, enabled: bool) -> (r: (Vec<String>, bool))
    ensures
        lines_view(r.0@) == check_entry_spec(source@, *st, ctx@, enabled).0,
        r.1 == check_entry_spec(source@, *st, ctx@, enabled).1,
{
    let name = paint(CYAN, source, enabled);
    let mut v: Vec<char> = Vec::new();
    push_str(&mut v, "  ");
    match st {
        TemplateSource::NotFound => {
            let mark = paint(RED, "✗", enabled);
            push_str(&mut v, mark.as_str());
            push_str(&mut v, " ");
            push_str(&mut v, name.as_str());
            push_str(&mut v, " — source file not found in repo");
            let out = vec![string_of(&v)];
            assert(lines_view(out@) =~= check_entry_spec(source@, *st, ctx@, enabled).0);
            (out, false)
        },
        TemplateSource::Encrypted => {
            let mark = paint(YELLOW, "⚠", enabled);
            push_str(&mut v, mark.as_str());
            push_str(&mut v, " ");
            push_str(&mut v, name.as_str());
            push_str(&mut v, " — encrypted template (cannot validate without vault password)");
            let out = vec![string_of(&v)];
            assert(lines_view(out@) =~= check_entry_spec(source@, *st, ctx@, enabled).0);
            (out, true)
        },
        TemplateSource::Text(t) => {
            let (count, missing) = check_template(t.as_str(), ctx);
            let ghost refs = scan_from(t@, Seq::empty());
            if count == 0 {
                let mark = paint(YELLOW, "⚠", enabled);
                push_str(&mut v, mark.as_str());
                push_str(&mut v, " ");
                push_str(&mut v, name.as_str());
                push_str(&mut v, " — no template variables found");
                let out = vec![string_of(&v)];
                assert(lines_view(out@) =~= check_entry_spec(source@, *st, ctx@, enabled).0);
                return (out, true);
            }
            if missing.len() == 0 {
                let mark = paint(GREEN, "✓", enabled);
                push_str(&mut v, mark.as_str());
                push_str(&mut v, " ");
                push_str(&mut v, name.as_str());
                push_str(&mut v, "  —  ");
                push_all(&mut v, &decimal_vec(count));
                push_str(&mut v, " variable");
                if count != 1 {
                    push_str(&mut v, "s");
                }
                push_str(&mut v, " — all resolved");
                proof {
                    reveal_strlit("s");
                }
                let out = vec![string_of(&v)];
                assert(lines_view(out@) =~= check_entry_spec(source@, *st, ctx@, enabled).0);
                return (out, true);
            }
            let ghost ms = lines_view(missing@);
            assert(ms =~= missing@.map_values(|s: String| s@));
            let mark = paint(RED, "✗", enabled);
            push_str(&mut v, mark.as_str());
            push_str(&mut v, " ");
            push_str(&mut v, name.as_str());
            push_str(&mut v, "  —  missing: ");
            let joined = join_parts(&missing);
            push_str(&mut v, joined.as_str());
            let mut out: Vec<String> = vec![string_of(&v)];
            let ghost head = lines_view(out@);
            let arrow = paint(DIM, "→", enabled);
            let mut i: usize = 0;
            while i < missing.len()
                invariant
                    i <= missing@.len(),
                    ms == lines_view(missing@),
                    arrow@ == paint_spec(DIM@, "→"@, enabled),
                    lines_view(out@) == head + fix_lines(ms.take(i as int), enabled),
                decreases missing@.len() - i,
            {
                let m = chars_of(missing[i].as_str());
                let var_prefix = chars_of("var.");
                proof {
                    reveal_strlit("var.");
                }
                let key = if crate::text::starts_with_exec(&m, &var_prefix) {
                    slice_to_vec(&m, 4, m.len())
                } else {
                    m
                };
                proof {
                    reveal_strlit("var.");
                    if crate::text::starts_with(ms[i as int], "var."@) {
                        assert(key@ =~= ms[i as int].skip(4));
                    }
                }
                let mut line: Vec<char> = Vec::new();
                push_str(&mut line, "     ");
                push_str(&mut line, arrow.as_str());
                push_str(&mut line, " dotling vars set ");
                push_all(&mut line, &key);
                push_str(&mut line, " <value>");
                let ghost before = out@;
                out.push(string_of(&line));
                proof {
                    assert(ms.take(i + 1).drop_last() =~= ms.take(i as int));
                    assert(ms.take(i + 1).last() == ms[i as int]);
                    assert(line@ =~= fix_line(ms[i as int], enabled));
                    assert(lines_view(out@) =~= lines_view(before).push(line@));
                }
                i += 1;
            }
            assert(ms.take(ms.len() as int) =~= ms);
            assert(lines_view(out@) =~= check_entry_spec(source@, *st, ctx@, enabled).0);
            (out, false)
        },
    }
}

fn divider_text() -> (r: String)
    ensures
        r@ == divider(),
{
    let mut v: Vec<char> = Vec::new();
    let mut i: usize = 0;
    while i < 66
        invariant
            i <= 66,
            v@ == Seq::new(i as nat, |k: int| '─'),
        decreases 66 - i,
    {
        v.push('─');
        i += 1;
        assert(v@ =~= Seq::new(i as nat, |k: int| '─'));
    }
    string_of(&v)
}

fn indented(s: &str) -> (r: String)
    ensures
        r@ == "  "@ + s@,
{
    let mut v: Vec<char> = Vec::new();
    push_str(&mut v, "  ");
    push_str(&mut v, s);
    string_of(&v)
}

/// `dotling vars check` over the template entries (each source path with
/// what was found for it): the lines of the report and whether every
/// template is valid. With no template entries, see [`no_templates_notices`].
pub fn run_check(entries: &Vec<(String, TemplateSource)>, ctx: &RenderContext, enabled: bool) -> (r: CheckReport)
    ensures
        lines_view(r.lines@) == check_report_spec(entries@, ctx@, enabled).0,
        r.all_ok == check_report_spec(entries@, ctx@, enabled).1,
{
    let div = divider_text();
    let dim_div = paint(DIM, div.as_str(), enabled);
    let title = paint(BOLD, "Template variable check", enabled);
    let empty = String::new();
    let mut lines: Vec<String> = vec![empty, indented(title.as_str()), indented(dim_div.as_str())];
    let ghost head = lines_view(lines@);
    let mut all_ok = true;
    let mut i: usize = 0;
    while i < entries.len()
        invariant
            i <= entries@.len(),
            head == lines_view(lines@.take(3)),
            lines@.len() >= 3,
            lines_view(lines@) == head + check_body(entries@, ctx@, enabled, i as int).0,
            all_ok == check_body(entries@, ctx@, enabled, i as int).1,
        decreases entries@.len() - i,
    {
        let (ls, ok) = entry_lines(entries[i].0.as_str(), &entries[i].1, ctx, enabled);
        let ghost before = lines@;
        let mut j: usize = 0;
        while j < ls.len()
            invariant
                j <= ls@.len(),
                lines@.len() == before.len() + j,
                lines_view(lines@) == lines_view(before) + lines_view(ls@).take(j as int),
            decreases ls@.len() - j,
        {
            let ghost b2 = lines@;
            lines.push(ls[j].clone());
            proof {
                assert(lines_view(ls@).take(j + 1) =~= lines_view(ls@).take(j as int).push(ls@[j as int]@));
                assert(lines_view(lines@) =~= lines_view(b2).push(ls@[j as int]@));
            }
            j += 1;
        }
        assert(lines_view(ls@).take(ls@.len() as int) =~= lines_view(ls@));
        assert(lines_view(lines@).take(3) =~= lines_view(before).take(3));
        assert(lines_view(lines@.take(3)) =~= lines_view(lines@).take(3));
        assert(lines_view(before.take(3)) =~= lines_view(before).take(3));
        all_ok = all_ok && ok;
        i += 1;
    }
    let ghost before = lines@;
    lines.push(indented(dim_div.as_str()));
    assert(lines_view(lines@) =~= lines_view(before).push("  "@ + paint_spec(DIM@, divider(), enabled)));
    CheckReport { lines, all_ok }
}

/// What `dotling vars check` says when there are no template entries.
pub open spec fn no_templates_notices() -> Seq<(NoticeKind, Seq<char>)> {
    seq![
        (NoticeKind::Info, "no template entries found"@),
        (NoticeKind::Hint, "add a template with `dotling add <path> --template`"@),
    ]
}

/// The verdict at the end of the report.
pub fn check_verdict(all_ok: bool) -> (r: Notice)
    ensures
        all_ok ==> (r.kind == NoticeKind::Success && r.text@ == "all templates are valid"@),
        !all_ok ==> (r.kind == NoticeKind::Warning && r.text@ == "some templates have unresolved variables"@),
{
    if all_ok {
        notice(NoticeKind::Success, "all templates are valid")
    } else {
        notice(NoticeKind::Warning, "some templates have unresolved variables")
    }
}

} // verus!
