//! Templates: `{{ namespace.key | filter }}` tags rendered against a context
//! of built-in values, variables and environment values, and backtick script
//! tags whose output the caller supplies.

use vstd::prelude::*;

use crate::error::Error;
use crate::text::{
    occurs_at, before_char, before_char_vec, chars_of, find, find_from, index_of, lemma_find_from,
    lemma_index_of, push_all, push_str, same, same_str, seqs_of, slice_to_vec, split_once,
    split_once_vec, starts_with, string_of, trim, trim_end, trim_vec, find_char, find_seq,
    is_whitespace, copy_vec, str_eq,
};
use crate::vars::{get_spec, key_index, key_index_from, lemma_key_index_from, pairs_of, trim_char, trim_char_vec};

verus! {

// ── Context ───────────────────────────────────────────────────────

/// A parsed variable reference found inside a template.
#[derive(Debug, Clone)]
pub struct TemplateVar {
    /// Full variable expression as written, e.g. `var.hostname | upper`.
    pub raw: String,
    /// Namespace: `"dotling"`, `"var"`, or `"env"`.
    pub namespace: String,
    /// Key within the namespace.
    pub key: String,
}

/// Context used to resolve variables during rendering.
#[derive(Debug, Clone)]
pub struct RenderContext {
    /// `dotling.*` built-in values.
    pub builtins: Vec<(String, String)>,
    /// `var.*` values: local store values override config defaults.
    /// Lookup scans from front to back, so earlier pairs win.
    pub vars: Vec<(String, String)>,
    /// `env.*` values — snapshot of the environment.
    pub env: Vec<(String, String)>,
}

pub struct ContextView {
    pub builtins: Seq<(Seq<char>, Seq<char>)>,
    pub vars: Seq<(Seq<char>, Seq<char>)>,
    pub env: Seq<(Seq<char>, Seq<char>)>,
}

impl View for RenderContext {
    type V = ContextView;

    open spec fn view(&self) -> ContextView {
        ContextView {
            builtins: pairs_of(self.builtins@),
            vars: pairs_of(self.vars@),
            env: pairs_of(self.env@),
        }
    }
}

/// The facts about the machine that the built-in values come from.
#[derive(Debug, Clone)]
pub struct MachineFacts {
    pub hostname: String,
    pub username: String,
    pub os: String,
    pub arch: String,
    pub home: String,
    pub env: Vec<(String, String)>,
}

/// The value of `namespace.key`.
pub open spec fn resolve_spec(ctx: ContextView, namespace: Seq<char>, key: Seq<char>) -> Option<
    Seq<char>,
> {
    if namespace == "dotling"@ {
        get_spec(ctx.builtins, key)
    } else if namespace == "var"@ {
        get_spec(ctx.vars, key)
    } else if namespace == "env"@ {
        get_spec(ctx.env, key)
    } else {
        None
    }
}

/// Local pairs first, then each config pair whose key is not taken yet.
pub open spec fn merge_vars(
    local: Seq<(Seq<char>, Seq<char>)>,
    config: Seq<(Seq<char>, Seq<char>)>,
) -> Seq<(Seq<char>, Seq<char>)>
    decreases config.len(),
{
    if config.len() == 0 {
        local
    } else {
        let m = merge_vars(local, config.drop_last());
        if key_index(m, config.last().0) >= 0 {
            m
        } else {
            m.push(config.last())
        }
    }
}

// ── Scripts ───────────────────────────────────────────────────────

/// What became of a backtick script the renderer asked for.
#[derive(Debug, Clone)]
pub enum ScriptResult {
    /// It ran; its output with trailing line breaks and blanks removed.
    Output(String),
    /// It was not trusted and did not run; it counts as unresolved.
    Skipped,
    /// It could not run or failed; the message of the template error.
    Failed(String),
}

pub enum ScriptView {
    Output(Seq<char>),
    Skipped,
    Failed(Seq<char>),
}

pub open spec fn script_view(r: ScriptResult) -> ScriptView {
    match r {
        ScriptResult::Output(s) => ScriptView::Output(s@),
        ScriptResult::Skipped => ScriptView::Skipped,
        ScriptResult::Failed(m) => ScriptView::Failed(m@),
    }
}

/// Script execution capability for the renderer.
#[derive(Debug, Clone)]
pub enum Runner {
    /// Pure rendering: variables and filters only.
    Pure,
    /// Script-capable rendering: the results of the scripts run so far, in
    /// the order the template asks for them.
    ScriptCapable { results: Vec<ScriptResult> },
}

pub open spec fn runner_view(r: Runner) -> Option<Seq<ScriptView>> {
    match r {
        Runner::Pure => None,
        Runner::ScriptCapable { results } => Some(results@.map_values(|x: ScriptResult| script_view(x))),
    }
}

// ── Rendering specification ───────────────────────────────────────

/// The text of `str::to_uppercase`.
pub uninterp spec fn upper_text(s: Seq<char>) -> Seq<char>;

/// The text of `str::to_lowercase`.
pub uninterp spec fn lower_text(s: Seq<char>) -> Seq<char>;

/// `str::to_uppercase`.
///
/// Trusted: std documents the result as the Unicode uppercase of the text,
/// which is named here and not written out.
#[verifier::external_body]
fn to_upper(s: &str) -> (r: String)
    ensures
        r@ == upper_text(s@),
{
    s.to_uppercase()
}

/// `str::to_lowercase`.
///
/// Trusted: std documents the result as the Unicode lowercase of the text,
/// which is named here and not written out.
#[verifier::external_body]
fn to_lower(s: &str) -> (r: String)
    ensures
        r@ == lower_text(s@),
{
    s.to_lowercase()
}

/// `s` without leading spaces and tabs.
pub open spec fn skip_blanks(s: Seq<char>) -> Seq<char>
    decreases s.len(),
{
    if s.len() > 0 && (s[0] == ' ' || s[0] == '\t') {
        skip_blanks(s.drop_first())
    } else {
        s
    }
}

pub open spec fn unresolved_message() -> Seq<char> {
    "unresolved variable (use `| default \"fallback\"` to make it optional)"@
}

/// One filter applied, or the error it raises.
pub open spec fn filter_step(value: Option<Seq<char>>, raw: Seq<char>) -> Result<
    Option<Seq<char>>,
    Seq<char>,
> {
    let f = trim(raw);
    if f.len() == 0 {
        Ok(value)
    } else if starts_with(f, "default"@) {
        let fallback = trim_char(trim_char(trim(f.skip(7)), '"'), '\'');
        Ok(
            if value is None {
                Some(fallback)
            } else {
                value
            },
        )
    } else {
        match value {
            None => Err("unresolved variable — cannot apply filter (use `| default \"\"` first)"@),
            Some(v) => if f == "upper"@ {
                Ok(Some(upper_text(v)))
            } else if f == "lower"@ {
                Ok(Some(lower_text(v)))
            } else if f == "trim"@ {
                Ok(Some(trim(v)))
            } else if f == "quote"@ {
                Ok(Some(seq!['"'] + v + seq!['"']))
            } else if f == "squote"@ {
                Ok(Some(seq!['\''] + v + seq!['\'']))
            } else {
                Err(
                    "unknown filter `"@ + f
                        + "` — valid filters: upper, lower, trim, quote, squote, default"@,
                )
            },
        }
    }
}

/// The `|`-separated filters of `s`, read from the left.
pub open spec fn filters_from(value: Option<Seq<char>>, s: Seq<char>) -> Result<Option<Seq<char>>, Seq<char>>
    decreases s.len(),
{
    let i = index_of(s, '|');
    if i < 0 {
        filter_step(value, s)
    } else {
        proof {
            lemma_index_of(s, '|');
        }
        match filter_step(value, s.take(i)) {
            Ok(v2) => filters_from(v2, s.skip(i + 1)),
            Err(m) => Err(m),
        }
    }
}

/// Filters applied to a value; the result must be resolved.
pub open spec fn apply_filters_spec(value: Option<Seq<char>>, filters: Option<Seq<char>>) -> Result<
    Seq<char>,
    Seq<char>,
> {
    match filters {
        None => match value {
            Some(v) => Ok(v),
            None => Err(unresolved_message()),
        },
        Some(f) => match filters_from(value, f) {
            Ok(Some(v)) => Ok(v),
            Ok(None) => Err(unresolved_message()),
            Err(m) => Err(m),
        },
    }
}

/// The result of evaluating one tag: a value and the number of scripts used
/// so far, an error message, or a script the caller must run first.
pub enum EvalOut {
    Value(Seq<char>, nat),
    Error(Seq<char>),
    NeedScript(Seq<char>),
}

/// `namespace.key`, checked.
pub open spec fn parse_var_ref_spec(var_part: Seq<char>) -> Result<(Seq<char>, Seq<char>), Seq<char>> {
    match split_once(var_part, '.') {
        None => Err(
            "invalid variable `"@ + var_part
                + "` — expected `namespace.key` (e.g. `var.hostname`)"@,
        ),
        Some((n, k)) => {
            let ns = trim(n);
            let key = trim(k);
            if ns == "dotling"@ || ns == "var"@ || ns == "env"@ {
                Ok((ns, key))
            } else {
                Err(
                    "unknown namespace `"@ + ns + "` in `"@ + var_part
                        + "` — valid namespaces: dotling, var, env"@,
                )
            }
        },
    }
}

/// One tag's expression evaluated, with `k` scripts used before it.
pub open spec fn eval_spec(expr0: Seq<char>, ctx: ContextView, scripts: Option<Seq<ScriptView>>, k: nat) -> EvalOut {
    let expr = trim(expr0);
    if starts_with(expr, seq!['`']) {
        let after = expr.drop_first();
        let close = index_of(after, '`');
        if close < 0 {
            EvalOut::Error("unclosed backtick in script tag"@)
        } else {
            let command = trim(after.take(close));
            let rest = trim(after.skip(close + 1));
            if rest.len() > 0 && rest[0] != '|' {
                EvalOut::Error(
                    "expected `|` after script tag closing backtick, found `"@ + rest + "`"@,
                )
            } else {
                let filters = if rest.len() == 0 {
                    None
                } else {
                    Some(trim(rest.drop_first()))
                };
                match scripts {
                    None => EvalOut::Error(
                        "scripts cannot be executed in this context (pure render)"@,
                    ),
                    Some(outs) => if k >= outs.len() {
                        EvalOut::NeedScript(command)
                    } else {
                        let raw = match outs[k as int] {
                            ScriptView::Output(s) => Ok(Some(s)),
                            ScriptView::Skipped => Ok(None),
                            ScriptView::Failed(m) => Err(m),
                        };
                        match raw {
                            Err(m) => EvalOut::Error(m),
                            Ok(v) => match apply_filters_spec(v, filters) {
                                Ok(out) => EvalOut::Value(out, k + 1),
                                Err(m) => EvalOut::Error(m),
                            },
                        }
                    },
                }
            }
        }
    } else {
        let var_part = trim(before_char(expr, '|'));
        let filters = match split_once(expr, '|') {
            Some((_, f)) => Some(trim(f)),
            None => None,
        };
        match parse_var_ref_spec(var_part) {
            Err(m) => EvalOut::Error(m),
            Ok((ns, key)) => match apply_filters_spec(resolve_spec(ctx, ns, key), filters) {
                Ok(out) => EvalOut::Value(out, k),
                Err(m) => EvalOut::Error(m),
            },
        }
    }
}

/// The result of rendering: the text, an error message, or a script the
/// caller must run first.
pub enum RenderOut {
    Text(Seq<char>),
    Error(Seq<char>),
    NeedScript(Seq<char>),
}

/// The text `t` rendered, with `k` scripts used before it.
pub open spec fn render_from(t: Seq<char>, ctx: ContextView, scripts: Option<Seq<ScriptView>>, k: nat) -> RenderOut
    decreases t.len(),
{
    let open = find(t, "{{"@);
    if open < 0 {
        RenderOut::Text(t)
    } else {
        proof {
            reveal_strlit("{{");
            lemma_find_from(t, "{{"@, 0);
        }
        let after = t.skip(open + 2);
        let close = find(after, "}}"@);
        if close < 0 {
            RenderOut::Error("unclosed `{{` — missing `}}`"@)
        } else {
            proof {
                reveal_strlit("}}");
                lemma_find_from(after, "}}"@, 0);
            }
            let inner = after.take(close);
            let trim_left = inner.len() > 0 && inner[0] == '-';
            let trim_right = inner.len() > 0 && inner.last() == '-';
            let expr = trim(trim_char(inner, '-'));
            let before = t.take(open);
            let shown = if trim_left {
                trim_end(before)
            } else {
                before
            };
            match eval_spec(expr, ctx, scripts, k) {
                EvalOut::Error(m) => RenderOut::Error(m),
                EvalOut::NeedScript(c) => RenderOut::NeedScript(c),
                EvalOut::Value(v, k2) => {
                    let rest = t.skip(open + 2 + close + 2);
                    let rest2 = if trim_right {
                        skip_blanks(rest)
                    } else {
                        rest
                    };
                    proof {
                        lemma_skip_blanks_len(rest);
                    }
                    match render_from(rest2, ctx, scripts, k2) {
                        RenderOut::Text(s) => RenderOut::Text(shown + v + s),
                        other => other,
                    }
                },
            }
        }
    }
}

pub proof fn lemma_skip_blanks_len(s: Seq<char>)
    ensures
        skip_blanks(s).len() <= s.len(),
        skip_blanks(s) == s.skip(s.len() - skip_blanks(s).len()),
    decreases s.len(),
{
    if s.len() > 0 && (s[0] == ' ' || s[0] == '\t') {
        lemma_skip_blanks_len(s.drop_first());
        assert(s.drop_first().skip(s.drop_first().len() - skip_blanks(s).len()) == s.skip(
            s.len() - skip_blanks(s).len(),
        ));
    } else {
        assert(s.skip(0) == s);
    }
}

// ── Executable rendering ──────────────────────────────────────────

/// A template error about `source` with this message.
pub open spec fn is_template_error(e: Error, source: Seq<char>, m: Seq<char>) -> bool {
    match e {
        Error::Template { source: s, message } => s@ == source && message@ == m,
        _ => false,
    }
}

fn template_error(source: &str, message: &[char]) -> (e: Error)
    ensures
        is_template_error(e, source@, message@),
{
    Error::Template { source: source.to_string(), message: string_of(message) }
}

fn opt_chars(o: &Option<String>) -> (r: Option<Vec<char>>)
    ensures
        match (r, *o) {
            (Some(a), Some(b)) => a@ == b@,
            (None, None) => true,
            _ => false,
        },
{
    match o {
        Some(s) => Some(chars_of(s.as_str())),
        None => None,
    }
}

pub open spec fn ov(o: Option<Vec<char>>) -> Option<Seq<char>> {
    match o {
        Some(v) => Some(v@),
        None => None,
    }
}

fn lookup(pairs: &Vec<(String, String)>, key: &[char]) -> (r: Option<Vec<char>>)
    ensures
        ov(r) == get_spec(pairs_of(pairs@), key@),
{
    let ghost vs = pairs_of(pairs@);
    proof {
        lemma_key_index_from(vs, key@, 0);
    }
    let mut i: usize = 0;
    while i < pairs.len()
        invariant
            i <= pairs@.len(),
            vs == pairs_of(pairs@),
            key_index(vs, key@) == key_index_from(vs, key@, i as int),
        decreases pairs@.len() - i,
    {
        let k = chars_of(pairs[i].0.as_str());
        if same(&k, key) {
            return Some(chars_of(pairs[i].1.as_str()));
        }
        i += 1;
    }
    None
}

impl RenderContext {
    /// Build a context from the machine's facts, config defaults, and local vars.
    pub fn new(
        repo_root: &str,
        config_vars: &[(String, String)],
        local_vars: &[(String, String)],
        facts: MachineFacts,
    ) -> (r: RenderContext)
        ensures
            r@.builtins == seq![
                ("hostname"@, facts.hostname@),
                ("username"@, facts.username@),
                ("os"@, facts.os@),
                ("arch"@, facts.arch@),
                ("home"@, facts.home@),
                ("repo"@, repo_root@),
            ],
            r@.vars == merge_vars(pairs_of(local_vars@), pairs_of(config_vars@)),
            r@.env == pairs_of(facts.env@),
    {
        let mut builtins: Vec<(String, String)> = Vec::new();
        builtins.push(("hostname".to_string(), facts.hostname));
        builtins.push(("username".to_string(), facts.username));
        builtins.push(("os".to_string(), facts.os));
        builtins.push(("arch".to_string(), facts.arch));
        builtins.push(("home".to_string(), facts.home));
        builtins.push(("repo".to_string(), repo_root.to_string()));
        let mut vars: Vec<(String, String)> = Vec::new();
        let mut i: usize = 0;
        while i < local_vars.len()
            invariant
                i <= local_vars@.len(),
                pairs_of(vars@) == pairs_of(local_vars@).take(i as int),
            decreases local_vars@.len() - i,
        {
            let p = (local_vars[i].0.clone(), local_vars[i].1.clone());
            let ghost v0 = vars@;
            vars.push(p);
            assert(pairs_of(vars@) =~= pairs_of(v0).push((p.0@, p.1@)));
            assert(pairs_of(local_vars@).take(i + 1) =~= pairs_of(local_vars@).take(i as int).push(
                pairs_of(local_vars@)[i as int],
            ));
            i += 1;
        }
        assert(pairs_of(local_vars@).take(local_vars@.len() as int) == pairs_of(local_vars@));
        let ghost cv = pairs_of(config_vars@);
        let mut j: usize = 0;
        while j < config_vars.len()
            invariant
                j <= config_vars@.len(),
                cv == pairs_of(config_vars@),
                pairs_of(vars@) == merge_vars(pairs_of(local_vars@), cv.take(j as int)),
            decreases config_vars@.len() - j,
        {
            let key = chars_of(config_vars[j].0.as_str());
            let ghost before = pairs_of(vars@);
            let found = lookup(&vars, &key);
            proof {
                assert(cv.take(j + 1).drop_last() == cv.take(j as int));
                assert(cv.take(j + 1).last() == cv[j as int]);
                lemma_key_index_from(before, key@, 0);
            }
            if found.is_none() {
                let p = (config_vars[j].0.clone(), config_vars[j].1.clone());
                vars.push(p);
                assert(pairs_of(vars@) =~= before.push((p.0@, p.1@)));
            }
            j += 1;
        }
        assert(cv.take(cv.len() as int) == cv);
        let r = RenderContext { builtins, vars, env: facts.env };
        assert(r@.builtins =~= seq![
            ("hostname"@, facts.hostname@),
            ("username"@, facts.username@),
            ("os"@, facts.os@),
            ("arch"@, facts.arch@),
            ("home"@, facts.home@),
            ("repo"@, repo_root@),
        ]);
        r
    }

    /// Resolve a variable by namespace and key.
    /// Returns `None` if not found.
    pub fn resolve(&self, namespace: &str, key: &str) -> (r: Option<String>)
        ensures
            match r {
                Some(v) => resolve_spec(self@, namespace@, key@) == Some(v@),
                None => resolve_spec(self@, namespace@, key@) is None,
            },
    {
        let k = chars_of(key);
        let found = if str_eq(namespace, "dotling") {
            lookup(&self.builtins, &k)
        } else if str_eq(namespace, "var") {
            lookup(&self.vars, &k)
        } else if str_eq(namespace, "env") {
            lookup(&self.env, &k)
        } else {
            None
        };
        match found {
            Some(v) => Some(string_of(&v)),
            None => None,
        }
    }

    fn resolve_chars(&self, namespace: &[char], key: &[char]) -> (r: Option<Vec<char>>)
        ensures
            ov(r) == resolve_spec(self@, namespace@, key@),
    {
        if same_str(namespace, "dotling") {
            lookup(&self.builtins, key)
        } else if same_str(namespace, "var") {
            lookup(&self.vars, key)
        } else if same_str(namespace, "env") {
            lookup(&self.env, key)
        } else {
            None
        }
    }
}

/// Each character sequence's text.
fn text_of(v: &Vec<char>) -> (r: String)
    ensures
        r@ == v@,
{
    string_of(v)
}

fn filter_step_exec(value: Option<Vec<char>>, raw: &[char]) -> (r: Result<Option<Vec<char>>, Vec<char>>)
    ensures
        match (r, filter_step(ov(value), raw@)) {
            (Ok(a), Ok(b)) => ov(a) == b,
            (Err(a), Err(b)) => a@ == b,
            _ => false,
        },
{
    let f = trim_vec(raw);
    if f.len() == 0 {
        return Ok(value);
    }
    let dflt = chars_of("default");
    if crate::text::starts_with_exec(&f, &dflt) {
        proof {
            reveal_strlit("default");
        }
        let rest = slice_to_vec(&f, 7, f.len());
        let t = trim_vec(&rest);
        let a = trim_char_vec(&t, '"');
        let fallback = trim_char_vec(&a, '\'');
        return Ok(
            if value.is_none() {
                Some(fallback)
            } else {
                value
            },
        );
    }
    let v = match value {
        Some(v) => v,
        None => {
            return Err(chars_of("unresolved variable — cannot apply filter (use `| default \"\"` first)"));
        },
    };
    if same_str(&f, "upper") {
        let s = text_of(&v);
        let u = to_upper(s.as_str());
        Ok(Some(chars_of(u.as_str())))
    } else if same_str(&f, "lower") {
        let s = text_of(&v);
        let l = to_lower(s.as_str());
        Ok(Some(chars_of(l.as_str())))
    } else if same_str(&f, "trim") {
        Ok(Some(trim_vec(&v)))
    } else if same_str(&f, "quote") {
        let mut q: Vec<char> = Vec::new();
        q.push('"');
        push_all(&mut q, &v);
        q.push('"');
        assert(q@ =~= seq!['"'] + v@ + seq!['"']);
        Ok(Some(q))
    } else if same_str(&f, "squote") {
        let mut q: Vec<char> = Vec::new();
        q.push('\'');
        push_all(&mut q, &v);
        q.push('\'');
        assert(q@ =~= seq!['\''] + v@ + seq!['\'']);
        Ok(Some(q))
    } else {
        let mut m: Vec<char> = Vec::new();
        push_str(&mut m, "unknown filter `");
        push_all(&mut m, &f);
        push_str(&mut m, "` — valid filters: upper, lower, trim, quote, squote, default");
        Err(m)
    }
}

/// Apply zero or more pipe filters to a resolved value; the error is the
/// message of the template error.
fn apply_filters(value: Option<Vec<char>>, filters: Option<Vec<char>>) -> (r: Result<Vec<char>, Vec<char>>)
    ensures
        match (r, apply_filters_spec(ov(value), ov(filters))) {
            (Ok(a), Ok(b)) => a@ == b,
            (Err(a), Err(b)) => a@ == b,
            _ => false,
        },
{
    let fs = match filters {
        None => {
            return match value {
                Some(v) => Ok(v),
                None => Err(chars_of("unresolved variable (use `| default \"fallback\"` to make it optional)")),
            };
        },
        Some(f) => f,
    };
    let mut cur = value;
    let mut rem = fs;
    loop
        invariant
            ov(filters) == Some(fs@),
            filters_from(ov(value), fs@) == filters_from(ov(cur), rem@),
        decreases rem@.len(),
    {
        proof {
            lemma_index_of(rem@, '|');
        }
        match find_char(&rem, '|', 0) {
            None => {
                let last = filter_step_exec(cur, &rem);
                return match last {
                    Ok(Some(v)) => Ok(v),
                    Ok(None) => Err(chars_of("unresolved variable (use `| default \"fallback\"` to make it optional)")),
                    Err(m) => Err(m),
                };
            },
            Some(i) => {
                let seg = slice_to_vec(&rem, 0, i);
                let next = slice_to_vec(&rem, i + 1, rem.len());
                assert(seg@ == rem@.take(i as int));
                assert(next@ == rem@.skip(i + 1));
                match filter_step_exec(cur, &seg) {
                    Ok(v2) => {
                        cur = v2;
                        rem = next;
                    },
                    Err(m) => {
                        return Err(m);
                    },
                }
            },
        }
    }
}

} // verus!

verus! {

/// The outcome of one tag.
enum Eval {
    Value(Vec<char>, usize),
    Error(Vec<char>),
    NeedScript(Vec<char>),
}

spec fn eval_matches(e: Eval, s: EvalOut) -> bool {
    match (e, s) {
        (Eval::Value(v, k), EvalOut::Value(sv, sk)) => v@ == sv && k == sk,
        (Eval::Error(m), EvalOut::Error(sm)) => m@ == sm,
        (Eval::NeedScript(c), EvalOut::NeedScript(sc)) => c@ == sc,
        _ => false,
    }
}

fn parse_var_ref(var_part: &[char]) -> (r: Result<(Vec<char>, Vec<char>), Vec<char>>)
    ensures
        match (r, parse_var_ref_spec(var_part@)) {
            (Ok((a, b)), Ok((sa, sb))) => a@ == sa && b@ == sb,
            (Err(m), Err(sm)) => m@ == sm,
            _ => false,
        },
{
    match split_once_vec(var_part, '.') {
        None => {
            let mut m: Vec<char> = Vec::new();
            push_str(&mut m, "invalid variable `");
            push_all(&mut m, var_part);
            push_str(&mut m, "` — expected `namespace.key` (e.g. `var.hostname`)");
            Err(m)
        },
        Some((n, k)) => {
            let ns = trim_vec(&n);
            let key = trim_vec(&k);
            if same_str(&ns, "dotling") || same_str(&ns, "var") || same_str(&ns, "env") {
                Ok((ns, key))
            } else {
                let mut m: Vec<char> = Vec::new();
                push_str(&mut m, "unknown namespace `");
                push_all(&mut m, &ns);
                push_str(&mut m, "` in `");
                push_all(&mut m, var_part);
                push_str(&mut m, "` — valid namespaces: dotling, var, env");
                Err(m)
            }
        },
    }
}

fn script_tag(expr: &Vec<char>, ctx: &RenderContext, runner: &Runner, k: usize) -> (r: Eval)
    requires
        starts_with(expr@, seq!['`']),
        expr@ == trim(expr@),
    ensures
        eval_matches(r, eval_spec(expr@, ctx@, runner_view(*runner), k as nat)),
{
    proof {
        assert(trim(expr@) == expr@);
    }
    let after = slice_to_vec(expr, 1, expr.len());
    assert(after@ == expr@.drop_first());
    proof {
        lemma_index_of(after@, '`');
    }
    let close = match find_char(&after, '`', 0) {
        None => {
            return Eval::Error(chars_of("unclosed backtick in script tag"));
        },
        Some(c) => c,
    };
    let cmd_raw = slice_to_vec(&after, 0, close);
    let command = trim_vec(&cmd_raw);
    let rest_raw = slice_to_vec(&after, close + 1, after.len());
    let rest = trim_vec(&rest_raw);
    assert(cmd_raw@ == after@.take(close as int));
    assert(rest_raw@ == after@.skip(close + 1));
    if rest.len() > 0 && rest[0] != '|' {
        let mut m: Vec<char> = Vec::new();
        push_str(&mut m, "expected `|` after script tag closing backtick, found `");
        push_all(&mut m, &rest);
        push_str(&mut m, "`");
        return Eval::Error(m);
    }
    let filters = if rest.len() == 0 {
        None
    } else {
        let f = slice_to_vec(&rest, 1, rest.len());
        assert(f@ == rest@.drop_first());
        Some(trim_vec(&f))
    };
    match runner {
        Runner::Pure => Eval::Error(chars_of("scripts cannot be executed in this context (pure render)")),
        Runner::ScriptCapable { results } => {
            if k >= results.len() {
                return Eval::NeedScript(command);
            }
            let raw = match &results[k] {
                ScriptResult::Output(s) => Some(chars_of(s.as_str())),
                ScriptResult::Skipped => None,
                ScriptResult::Failed(m) => {
                    return Eval::Error(chars_of(m.as_str()));
                },
            };
            match apply_filters(raw, filters) {
                Ok(v) => Eval::Value(v, k + 1),
                Err(m) => Eval::Error(m),
            }
        },
    }
}

fn eval_expr(expr0: &[char], ctx: &RenderContext, runner: &Runner, k: usize) -> (r: Eval)
    ensures
        eval_matches(r, eval_spec(expr0@, ctx@, runner_view(*runner), k as nat)),
{
    let expr = trim_vec(expr0);
    proof {
        crate::text::lemma_trim_idem(expr0@);
    }
    if expr.len() > 0 && expr[0] == '`' {
        assert(expr@.take(1) =~= seq!['`']);
        let r = script_tag(&expr, ctx, runner, k);
        return r;
    }
    proof {
        if starts_with(expr@, seq!['`']) {
            assert(expr@.take(1)[0] == expr@[0]);
        }
    }
    let vp = before_char_vec(&expr, '|');
    let var_part = trim_vec(&vp);
    let filters = match split_once_vec(&expr, '|') {
        Some((_, f)) => Some(trim_vec(&f)),
        None => None,
    };
    match parse_var_ref(&var_part) {
        Err(m) => Eval::Error(m),
        Ok((ns, key)) => {
            let raw = ctx.resolve_chars(&ns, &key);
            match apply_filters(raw, filters) {
                Ok(v) => Eval::Value(v, k),
                Err(m) => Eval::Error(m),
            }
        },
    }
}

} // verus!

verus! {

/// A rendered template, or a script the caller must run before rendering
/// can go on.
#[derive(Debug, Clone)]
pub enum Rendered {
    Text(String),
    NeedsScript(String),
}

/// The result of rendering matched against its specification.
pub open spec fn rendered_as(r: Result<Rendered, Error>, source: Seq<char>, s: RenderOut) -> bool {
    match s {
        RenderOut::Text(t) => r matches Ok(Rendered::Text(x)) && x@ == t,
        RenderOut::Error(m) => r matches Err(e) && is_template_error(e, source, m),
        RenderOut::NeedScript(c) => r matches Ok(Rendered::NeedsScript(x)) && x@ == c,
    }
}

fn skip_blanks_vec(s: &[char]) -> (r: Vec<char>)
    ensures
        r@ == skip_blanks(s@),
{
    let mut i: usize = 0;
    assert(s@.skip(0) == s@);
    while i < s.len() && (s[i] == ' ' || s[i] == '\t')
        invariant
            i <= s@.len(),
            skip_blanks(s@) == skip_blanks(s@.skip(i as int)),
        decreases s@.len() - i,
    {
        assert(s@.skip(i as int).drop_first() == s@.skip(i + 1));
        i += 1;
    }
    slice_to_vec(s, i, s.len())
}

fn render_internal(
    template_text: &str,
    ctx: &RenderContext,
    source_name: &str,
    runner: &Runner,
) -> (r: Result<Rendered, Error>)
    ensures
        rendered_as(r, source_name@, render_from(template_text@, ctx@, runner_view(*runner), 0)),
{
    let ghost sv = runner_view(*runner);
    let ghost total = render_from(template_text@, ctx@, sv, 0);
    let mut output: Vec<char> = Vec::new();
    let mut rem = chars_of(template_text);
    let mut k: usize = 0;
    let open_p = chars_of("{{");
    let close_p = chars_of("}}");
    proof {
        reveal_strlit("{{");
        reveal_strlit("}}");
    }
    loop
        invariant
            open_p@ == "{{"@,
            close_p@ == "}}"@,
            "{{"@.len() == 2,
            "}}"@.len() == 2,
            sv == runner_view(*runner),
            total == render_from(template_text@, ctx@, sv, 0),
            match render_from(rem@, ctx@, sv, k as nat) {
                RenderOut::Text(s) => total == RenderOut::Text(output@ + s),
                other => total == other,
            },
        decreases rem@.len(),
    {
        let ghost cur = rem@;
        proof {
            lemma_find_from(cur, "{{"@, 0);
        }
        let open = match find_seq(&rem, &open_p, 0) {
            None => {
                push_all(&mut output, &rem);
                return Ok(Rendered::Text(string_of(&output)));
            },
            Some(o) => o,
        };
        let n = rem.len();
        assert(occurs_at(cur, "{{"@, open as int));
        assert(open + 2 <= n);
        let after = slice_to_vec(&rem, open + 2, n);
        assert(after@ == cur.skip(open + 2));
        proof {
            lemma_find_from(after@, "}}"@, 0);
        }
        let close = match find_seq(&after, &close_p, 0) {
            None => {
                return Err(template_error(source_name, &chars_of("unclosed `{{` — missing `}}`")));
            },
            Some(c) => c,
        };
        let inner = slice_to_vec(&after, 0, close);
        assert(inner@ == after@.take(close as int));
        let trim_left = inner.len() > 0 && inner[0] == '-';
        let trim_right = inner.len() > 0 && inner[inner.len() - 1] == '-';
        let stripped = trim_char_vec(&inner, '-');
        let expr = trim_vec(&stripped);
        let before = slice_to_vec(&rem, 0, open);
        assert(before@ == cur.take(open as int));
        let shown = if trim_left {
            crate::text::trim_end_vec(&before)
        } else {
            before
        };
        match eval_expr(&expr, ctx, runner, k) {
            Eval::Error(m) => {
                return Err(template_error(source_name, &m));
            },
            Eval::NeedScript(c) => {
                return Ok(Rendered::NeedsScript(string_of(&c)));
            },
            Eval::Value(v, k2) => {
                let rest = slice_to_vec(&after, close + 2, after.len());
                assert(rest@ == cur.skip(open + 2 + close + 2));
                let rest2 = if trim_right {
                    skip_blanks_vec(&rest)
                } else {
                    rest
                };
                proof {
                    lemma_skip_blanks_len(rest@);
                }
                let ghost out0 = output@;
                push_all(&mut output, &shown);
                push_all(&mut output, &v);
                proof {
                    match render_from(rest2@, ctx@, sv, k2 as nat) {
                        RenderOut::Text(s) => {
                            assert(output@ + s == out0 + (shown@ + v@ + s));
                        },
                        _ => {},
                    }
                }
                rem = rest2;
                k = k2;
            },
        }
    }
}

/// Render a template string with the given context.
///
/// Returns the fully rendered string, or an `Error::Template` if any
/// variable is unresolved or a filter is unknown.
pub fn render(template_text: &str, ctx: &RenderContext, source_name: &str) -> (r: Result<String, Error>)
    ensures
        match render_from(template_text@, ctx@, None, 0) {
            RenderOut::Text(t) => r matches Ok(x) && x@ == t,
            RenderOut::Error(m) => r matches Err(e) && is_template_error(e, source_name@, m),
            RenderOut::NeedScript(_) => false,
        },
{
    proof {
        law_pure_render_runs_no_script(template_text@, ctx@, 0);
    }
    let runner = Runner::Pure;
    match render_internal(template_text, ctx, source_name, &runner) {
        Ok(Rendered::Text(t)) => Ok(t),
        Ok(Rendered::NeedsScript(_)) => {
            proof {
                assert(false);
            }
            Err(template_error(source_name, &chars_of("scripts cannot be executed in this context (pure render)")))
        },
        Err(e) => Err(e),
    }
}

/// Render a template string, allowing backtick scripts: `results` holds the
/// results of the scripts the template has asked for so far, in order.
/// Returns the next script to run when the template needs one more.
pub fn render_with_scripts(
    template_text: &str,
    ctx: &RenderContext,
    source_name: &str,
    results: Vec<ScriptResult>,
) -> (r: Result<Rendered, Error>)
    ensures
        rendered_as(
            r,
            source_name@,
            render_from(
                template_text@,
                ctx@,
                Some(results@.map_values(|x: ScriptResult| script_view(x))),
                0,
            ),
        ),
{
    let runner = Runner::ScriptCapable { results };
    render_internal(template_text, ctx, source_name, &runner)
}

/// Rendering without scripts never asks for one.
pub proof fn law_pure_render_runs_no_script(t: Seq<char>, ctx: ContextView, k: nat)
    ensures
        !(render_from(t, ctx, None, k) is NeedScript),
    decreases t.len(),
{
    let open = find(t, "{{"@);
    if open >= 0 {
        reveal_strlit("{{");
        reveal_strlit("}}");
        lemma_find_from(t, "{{"@, 0);
        let after = t.skip(open + 2);
        let close = find(after, "}}"@);
        if close >= 0 {
            lemma_find_from(after, "}}"@, 0);
            let inner = after.take(close);
            let expr = trim(trim_char(inner, '-'));
            match eval_spec(expr, ctx, None, k) {
                EvalOut::Value(v, k2) => {
                    let rest = t.skip(open + 2 + close + 2);
                    lemma_skip_blanks_len(rest);
                    law_pure_render_runs_no_script(rest, ctx, k2);
                    law_pure_render_runs_no_script(skip_blanks(rest), ctx, k2);
                },
                _ => {},
            }
        }
    }
}

/// Text without `{{` renders as itself.
pub proof fn law_render_plain_text(t: Seq<char>, ctx: ContextView, scripts: Option<Seq<ScriptView>>, k: nat)
    requires
        find(t, "{{"@) < 0,
    ensures
        render_from(t, ctx, scripts, k) == RenderOut::Text(t),
{
}

// ── Variable priority ─────────────────────────────────────────────

pub proof fn lemma_get_push(vs: Seq<(Seq<char>, Seq<char>)>, p: (Seq<char>, Seq<char>), k: Seq<char>)
    ensures
        get_spec(vs.push(p), k) == if key_index(vs, k) >= 0 {
            get_spec(vs, k)
        } else if p.0 == k {
            Some(p.1)
        } else {
            None::<Seq<char>>
        },
{
    let ws = vs.push(p);
    lemma_key_index_from(vs, k, 0);
    lemma_key_index_from(ws, k, 0);
    assert forall|i: int| 0 <= i < vs.len() implies ws[i] == vs[i] by {}
    let a = key_index(vs, k);
    let b = key_index(ws, k);
    if a >= 0 {
        assert(ws[a].0 == k);
        if b < a {
            assert(vs[b].0 == k);
        }
        assert(b == a);
    } else {
        if b >= 0 && b < vs.len() {
            assert(vs[b].0 == k);
        }
        if p.0 == k {
            assert(ws[vs.len() as int].0 == k);
        }
    }
}

/// Local variables win over config defaults: a key is looked up in the
/// local pairs first and in the config pairs only when it is not there.
pub proof fn law_local_vars_win(
    local: Seq<(Seq<char>, Seq<char>)>,
    config: Seq<(Seq<char>, Seq<char>)>,
    k: Seq<char>,
)
    ensures
        get_spec(merge_vars(local, config), k) == if get_spec(local, k) is Some {
            get_spec(local, k)
        } else {
            get_spec(config, k)
        },
        (get_spec(merge_vars(local, config), k) is None) == (key_index(local, k) < 0 && key_index(config, k) < 0),
    decreases config.len(),
{
    lemma_key_index_from(local, k, 0);
    lemma_key_index_from(config, k, 0);
    if config.len() == 0 {
    } else {
        let prev = config.drop_last();
        let last = config.last();
        law_local_vars_win(local, prev, k);
        let m = merge_vars(local, prev);
        lemma_key_index_from(m, k, 0);
        lemma_key_index_from(prev, k, 0);
        lemma_get_push(prev, last, k);
        assert(config == prev.push(last));
        if key_index(m, last.0) >= 0 {
            if last.0 == k {
                assert(get_spec(m, k) is Some);
            }
        } else {
            lemma_get_push(m, last, k);
            if last.0 == k {
                lemma_key_index_from(m, last.0, 0);
            }
        }
    }
}

} // verus!

verus! {

// ── Scanning ──────────────────────────────────────────────────────

/// A variable reference: the expression as written, its namespace and key.
pub type VarRef = (Seq<char>, Seq<char>, Seq<char>);

pub open spec fn var_ref_of(v: TemplateVar) -> VarRef {
    (v.raw@, v.namespace@, v.key@)
}

/// Whether a namespace and key are among the references found.
pub open spec fn already_found(acc: Seq<VarRef>, ns: Seq<char>, key: Seq<char>) -> bool {
    exists|i: int| 0 <= i < acc.len() && (#[trigger] acc[i]).1 == ns && acc[i].2 == key
}

/// The references of the closed tags of `t`, added to `acc` unless their
/// namespace and key are already there; script tags are left out.
pub open spec fn scan_from(t: Seq<char>, acc: Seq<VarRef>) -> Seq<VarRef>
    decreases t.len(),
{
    let open = find(t, "{{"@);
    if open < 0 {
        acc
    } else {
        proof {
            reveal_strlit("{{");
            lemma_find_from(t, "{{"@, 0);
        }
        let after = t.skip(open + 2);
        let close = find(after, "}}"@);
        if close < 0 {
            acc
        } else {
            proof {
                reveal_strlit("}}");
                lemma_find_from(after, "}}"@, 0);
            }
            let expr = trim(trim_char(after.take(close), '-'));
            let rest = t.skip(open + 2 + close + 2);
            if starts_with(expr, seq!['`']) {
                scan_from(rest, acc)
            } else {
                let var_part = trim(before_char(expr, '|'));
                match split_once(var_part, '.') {
                    Some((n, k)) => {
                        let ns = trim(n);
                        let key = trim(k);
                        if already_found(acc, ns, key) {
                            scan_from(rest, acc)
                        } else {
                            scan_from(rest, acc.push((expr, ns, key)))
                        }
                    },
                    None => scan_from(rest, acc),
                }
            }
        }
    }
}

/// No two references share a namespace and key.
pub open spec fn distinct_refs(acc: Seq<VarRef>) -> bool {
    forall|i: int, j: int| 0 <= i < j < acc.len() ==> !(acc[i].1 == acc[j].1 && acc[i].2 == acc[j].2)
}

/// Scanning lists each namespace and key once.
pub proof fn law_scan_distinct(t: Seq<char>, acc: Seq<VarRef>)
    requires
        distinct_refs(acc),
    ensures
        distinct_refs(scan_from(t, acc)),
    decreases t.len(),
{
    let open = find(t, "{{"@);
    if open >= 0 {
        reveal_strlit("{{");
        reveal_strlit("}}");
        lemma_find_from(t, "{{"@, 0);
        let after = t.skip(open + 2);
        let close = find(after, "}}"@);
        if close >= 0 {
            lemma_find_from(after, "}}"@, 0);
            let expr = trim(trim_char(after.take(close), '-'));
            let rest = t.skip(open + 2 + close + 2);
            let var_part = trim(before_char(expr, '|'));
            if !starts_with(expr, seq!['`']) {
                match split_once(var_part, '.') {
                    Some((n, k)) => {
                        let ns = trim(n);
                        let key = trim(k);
                        if !already_found(acc, ns, key) {
                            let acc2 = acc.push((expr, ns, key));
                            assert forall|i: int, j: int| 0 <= i < j < acc2.len() implies !(acc2[i].1
                                == acc2[j].1 && acc2[i].2 == acc2[j].2) by {
                                if j == acc.len() {
                                    assert(acc2[i] == acc[i]);
                                    if acc2[i].1 == ns && acc2[i].2 == key {
                                        assert(already_found(acc, ns, key));
                                    }
                                } else {
                                    assert(acc2[i] == acc[i] && acc2[j] == acc[j]);
                                }
                            }
                            law_scan_distinct(rest, acc2);
                        } else {
                            law_scan_distinct(rest, acc);
                        }
                    },
                    None => law_scan_distinct(rest, acc),
                }
            } else {
                law_scan_distinct(rest, acc);
            }
        }
    }
}

fn found_before(acc: &Vec<TemplateVar>, ns: &Vec<char>, key: &Vec<char>) -> (r: bool)
    ensures
        r == already_found(acc@.map_values(|v: TemplateVar| var_ref_of(v)), ns@, key@),
{
    let ghost refs = acc@.map_values(|v: TemplateVar| var_ref_of(v));
    let mut i: usize = 0;
    while i < acc.len()
        invariant
            i <= acc@.len(),
            refs == acc@.map_values(|v: TemplateVar| var_ref_of(v)),
            forall|j: int| 0 <= j < i ==> !((#[trigger] refs[j]).1 == ns@ && refs[j].2 == key@),
        decreases acc@.len() - i,
    {
        let a = chars_of(acc[i].namespace.as_str());
        let b = chars_of(acc[i].key.as_str());
        if same(&a, ns) && same(&b, key) {
            assert(refs[i as int].1 == ns@ && refs[i as int].2 == key@);
            return true;
        }
        i += 1;
    }
    false
}

/// Scan a template source for all variable references.
///
/// Returns one `TemplateVar` per `{{ }}` block found.  Duplicate references
/// are included only once (by `namespace:key` identity).
pub fn scan_variables(template_text: &str) -> (r: Vec<TemplateVar>)
    ensures
        r@.map_values(|v: TemplateVar| var_ref_of(v)) == scan_from(template_text@, Seq::empty()),
{
    let ghost total = scan_from(template_text@, Seq::empty());
    let mut vars: Vec<TemplateVar> = Vec::new();
    let mut rem = chars_of(template_text);
    let open_p = chars_of("{{");
    let close_p = chars_of("}}");
    proof {
        reveal_strlit("{{");
        reveal_strlit("}}");
    }
    assert(vars@.map_values(|v: TemplateVar| var_ref_of(v)) =~= Seq::<VarRef>::empty());
    loop
        invariant
            open_p@ == "{{"@,
            close_p@ == "}}"@,
            "{{"@.len() == 2,
            "}}"@.len() == 2,
            total == scan_from(template_text@, Seq::empty()),
            total == scan_from(rem@, vars@.map_values(|v: TemplateVar| var_ref_of(v))),
        decreases rem@.len(),
    {
        let ghost cur = rem@;
        let ghost refs = vars@.map_values(|v: TemplateVar| var_ref_of(v));
        proof {
            lemma_find_from(cur, "{{"@, 0);
        }
        let open = match find_seq(&rem, &open_p, 0) {
            None => {
                return vars;
            },
            Some(o) => o,
        };
        let n = rem.len();
        assert(occurs_at(cur, "{{"@, open as int));
        let after = slice_to_vec(&rem, open + 2, n);
        assert(after@ == cur.skip(open + 2));
        proof {
            lemma_find_from(after@, "}}"@, 0);
        }
        let close = match find_seq(&after, &close_p, 0) {
            None => {
                return vars;
            },
            Some(c) => c,
        };
        let inner = slice_to_vec(&after, 0, close);
        assert(inner@ == after@.take(close as int));
        let stripped = trim_char_vec(&inner, '-');
        let expr = trim_vec(&stripped);
        let rest = slice_to_vec(&after, close + 2, after.len());
        assert(rest@ == cur.skip(open + 2 + close + 2));
        if expr.len() > 0 && expr[0] == '`' {
            assert(expr@.take(1) =~= seq!['`']);
            rem = rest;
            continue;
        }
        proof {
            if starts_with(expr@, seq!['`']) {
                assert(expr@.take(1)[0] == expr@[0]);
            }
        }
        let vp = before_char_vec(&expr, '|');
        let var_part = trim_vec(&vp);
        match split_once_vec(&var_part, '.') {
            Some((n, k)) => {
                let ns = trim_vec(&n);
                let key = trim_vec(&k);
                if !found_before(&vars, &ns, &key) {
                    let tv = TemplateVar {
                        raw: string_of(&expr),
                        namespace: string_of(&ns),
                        key: string_of(&key),
                    };
                    let ghost v0 = vars@;
                    vars.push(tv);
                    assert(vars@.map_values(|v: TemplateVar| var_ref_of(v)) =~= v0.map_values(
                        |v: TemplateVar| var_ref_of(v),
                    ).push((expr@, ns@, key@)));
                }
            },
            None => {},
        }
        rem = rest;
    }
}

/// Whether the text holds a `{{` with a `}}` after it.
pub open spec fn has_tags_spec(t: Seq<char>) -> bool {
    let open = find(t, "{{"@);
    open >= 0 && find(t.skip(open + 2), "}}"@) >= 0
}

/// Check if a string contains any closed template tags (variables or scripts).
pub fn has_template_tags(template_text: &str) -> (r: bool)
    ensures
        r == has_tags_spec(template_text@),
{
    let t = chars_of(template_text);
    let open_p = chars_of("{{");
    let close_p = chars_of("}}");
    proof {
        reveal_strlit("{{");
        reveal_strlit("}}");
        lemma_find_from(t@, "{{"@, 0);
    }
    match find_seq(&t, &open_p, 0) {
        None => false,
        Some(o) => {
            let n = t.len();
            assert(occurs_at(t@, "{{"@, o as int));
            let after = slice_to_vec(&t, o + 2, n);
            find_seq(&after, &close_p, 0).is_some()
        },
    }
}

// ── Script output ─────────────────────────────────────────────────

/// `s` without trailing line breaks, spaces and tabs.
pub open spec fn trim_output(s: Seq<char>) -> Seq<char>
    decreases s.len(),
{
    if s.len() > 0 && (s.last() == '\r' || s.last() == '\n' || s.last() == ' ' || s.last() == '\t') {
        trim_output(s.drop_last())
    } else {
        s
    }
}

/// A script's output as a template value: its text without trailing line
/// breaks, spaces and tabs.
pub fn script_output(stdout: &str) -> (r: String)
    ensures
        r@ == trim_output(stdout@),
{
    let s = chars_of(stdout);
    let mut j = s.len();
    assert(s@.take(j as int) == s@);
    while j > 0 && (s[j - 1] == '\r' || s[j - 1] == '\n' || s[j - 1] == ' ' || s[j - 1] == '\t')
        invariant
            j <= s@.len(),
            trim_output(s@) == trim_output(s@.take(j as int)),
        decreases j,
    {
        assert(s@.take(j as int).drop_last() == s@.take(j - 1));
        j -= 1;
    }
    string_of(&slice_to_vec(&s, 0, j))
}


/// A `default` fallback in double or single quotes is the text inside the
/// quotes: for an unresolved variable, `| default 'x'` and `| default "x"`
/// both give exactly `x`; a resolved value is kept (for a fallback with no
/// quote character or `|`).
pub proof fn law_default_fallback(x: Seq<char>, q: char, value: Option<Seq<char>>)
    requires
        q == '"' || q == '\'',
        forall|k: int| 0 <= k < x.len() ==> x[k] != '"' && x[k] != '\'' && x[k] != '|',
    ensures
        apply_filters_spec(None, Some("default "@ + seq![q] + x + seq![q])) == Ok::<Seq<char>, Seq<char>>(x),
        value matches Some(v) ==> apply_filters_spec(value, Some("default "@ + seq![q] + x + seq![q]))
            == Ok::<Seq<char>, Seq<char>>(v),
{
    reveal_strlit("default ");
    reveal_strlit("default");
    let w = seq![q] + x + seq![q];
    let f = "default "@ + w;
    assert("default "@ + seq![q] + x + seq![q] =~= f);
    assert(f.len() == 8 + w.len());
    assert(f[0] == 'd');
    assert(f.last() == q);
    crate::text::lemma_trim_noop(f);
    assert(f.take(7) =~= "default"@);
    assert(starts_with(f, "default"@));
    let r = f.skip(7);
    assert(r =~= seq![' '] + w);
    assert(r[1] == q && r.last() == q);
    crate::text::lemma_trim_one_space(r);
    assert(r.drop_first() =~= w);
    crate::vars::lemma_unquote(x, q);
    assert forall|k: int| 0 <= k < f.len() implies f[k] != '|' by {
        if k >= 9 && k < 9 + x.len() {
            assert(f[k] == x[k - 9]);
        }
    }
    crate::text::lemma_index_of_none(f, '|');
    assert(trim(f) == f);
    assert(trim(r) == w);
    assert(trim_char(trim_char(trim(f.skip(7)), '"'), '\'') == x);
    assert(filter_step(None, f) == Ok::<Option<Seq<char>>, Seq<char>>(Some(x)));
    assert(filters_from(None, f) == filter_step(None, f));
    if value is Some {
        assert(filter_step(value, f) == Ok::<Option<Seq<char>>, Seq<char>>(value));
        assert(filters_from(value, f) == filter_step(value, f));
    }
}

} // verus!
