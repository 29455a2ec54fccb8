//! `dotling add`: the entry a new file, template or directory becomes, the
//! checks a template passes before it is first rendered, and what the user
//! is told. Moving files into the repo is the caller's.

use vstd::prelude::*;

use crate::config::{DeployMethod, Entry, EntryView, opt_view};
use crate::error::Error;
use crate::path::{collapse_tilde, collapse_tilde_spec, map_to_repo, outside_home_message, repo_path_of, strip_prefix};
use crate::template::{
    is_template_error, render, render_from, resolve_spec, scan_from, scan_variables, var_ref_of,
    ContextView, RenderContext, RenderOut, VarRef,
};
use crate::text::{push_str, str_eq, string_of};
use crate::vars::get_spec;

verus! {

pub open spec fn template_dir_message() -> Seq<char> {
    "--template is not supported for directories"@
}

/// Directories cannot be templates.
pub fn check_template_targets(template: bool, has_dir: bool) -> (r: Result<(), Error>)
    ensures
        template && has_dir ==> (r matches Err(Error::User(m)) && m@ == template_dir_message()),
        !(template && has_dir) ==> r is Ok,
{
    if template && has_dir {
        Err(Error::User("--template is not supported for directories".to_string()))
    } else {
        Ok(())
    }
}

/// The entry that adding the file at `path` (absolute, inside `home`)
/// creates: its repo path mapped from its place under home, its target the
/// path with home shown as `~`; templates are always copied.
pub open spec fn new_entry_spec(
    path: Seq<char>,
    home: Seq<char>,
    encrypt: bool,
    copy: bool,
    template: bool,
    directory: bool,
    os: Option<Seq<char>>,
    permissions: Option<u32>,
) -> Option<EntryView> {
    match strip_prefix(path, home) {
        None => None,
        Some(rel) => Some(
            EntryView {
                source: repo_path_of(rel),
                target: collapse_tilde_spec(path, home),
                method: if template || copy {
                    Some(DeployMethod::Copy)
                } else {
                    None
                },
                encrypted: encrypt,
                directory,
                template,
                os,
                permissions,
                before: None,
                after: None,
            },
        ),
    }
}

/// The entry for a file, template or directory being added; refused when
/// the path is not inside the home directory.
pub fn new_entry(
    path: &str,
    home: &str,
    encrypt: bool,
    copy: bool,
    template: bool,
    directory: bool,
    os: Option<&str>,
    permissions: Option<u32>,
) -> (r: Result<Entry, Error>)
    ensures
        match new_entry_spec(
            path@,
            home@,
            encrypt,
            copy,
            template,
            directory,
            match os {
                Some(s) => Some(s@),
                None => None,
            },
            permissions,
        ) {
            Some(e) => r matches Ok(x) && x@ == e,
            None => r matches Err(Error::User(m)) && m@ == outside_home_message(path@),
        },
{
    let source = match map_to_repo(path, home) {
        Ok(s) => s,
        Err(e) => {
            return Err(e);
        },
    };
    let target = collapse_tilde(path, home);
    let method = if template || copy {
        Some(DeployMethod::Copy)
    } else {
        None
    };
    let os_s: Option<String> = match os {
        Some(s) => Some(s.to_string()),
        None => None,
    };
    let e = Entry {
        source,
        target,
        method,
        encrypted: encrypt,
        directory,
        template,
        os: os_s,
        permissions,
        before: None,
        after: None,
    };
    assert(opt_view(e.os) == match os {
        Some(s) => Some(s@),
        None => None::<Seq<char>>,
    });
    Ok(e)
}

/// What a template's references need before its first rendering: the keys
/// of `var.` references that do not resolve, unless a `dotling.` reference
/// names a built-in that does not exist (the first such key).
pub open spec fn check_refs(refs: Seq<VarRef>, ctx: ContextView, k: int) -> Result<Seq<Seq<char>>, Seq<char>>
    decreases k,
{
    if k <= 0 {
        Ok(Seq::empty())
    } else {
        match check_refs(refs, ctx, k - 1) {
            Err(u) => Err(u),
            Ok(m) => {
                let r = refs[k - 1];
                let m2 = if r.1 == "var"@ && resolve_spec(ctx, "var"@, r.2) is None {
                    m.push(r.2)
                } else {
                    m
                };
                if r.1 == "dotling"@ && get_spec(ctx.builtins, r.2) is None {
                    Err(r.2)
                } else {
                    Ok(m2)
                }
            },
        }
    }
}

/// Once a reference fails the check, every longer check fails the same way.
proof fn lemma_check_refs_err(refs: Seq<VarRef>, ctx: ContextView, k: int, n: int)
    requires
        k <= n,
        check_refs(refs, ctx, k) is Err,
    ensures
        check_refs(refs, ctx, n) == check_refs(refs, ctx, k),
    decreases n - k,
{
    if k < n {
        lemma_check_refs_err(refs, ctx, k, n - 1);
    }
}

/// `var.k1, var.k2, ...`
pub open spec fn var_list(keys: Seq<Seq<char>>) -> Seq<char>
    decreases keys.len(),
{
    if keys.len() == 0 {
        Seq::empty()
    } else if keys.len() == 1 {
        "var."@ + keys[0]
    } else {
        var_list(keys.drop_last()) + ", var."@ + keys.last()
    }
}

pub open spec fn unresolved_vars_message(keys: Seq<Seq<char>>) -> Seq<char> {
    "unresolved variable"@ + (if keys.len() == 1 {
        Seq::<char>::empty()
    } else {
        "s"@
    }) + ": "@ + var_list(keys) + " — run `dotling vars set <key> <value>` then sync"@
}

/// Rendering a newly added template: an unknown built-in or unresolved
/// variables are reported before anything is rendered.
pub open spec fn render_with_context_spec(text: Seq<char>, ctx: ContextView) -> Result<Seq<char>, Seq<char>> {
    let refs = scan_from(text, Seq::empty());
    match check_refs(refs, ctx, refs.len() as int) {
        Err(u) => Err("unknown built-in `dotling."@ + u + "`"@),
        Ok(m) => if m.len() > 0 {
            Err(unresolved_vars_message(m))
        } else {
            match render_from(text, ctx, None, 0) {
                RenderOut::Text(t) => Ok(t),
                RenderOut::Error(e) => Err(e),
                RenderOut::NeedScript(_) => Err(Seq::empty()),
            }
        },
    }
}

fn template_err(source: &str, message: Vec<char>) -> (r: Error)
    ensures
        r matches Error::Template { source: s, message: m } && s@ == source@ && m@ == message@,
{
    Error::Template { source: source.to_string(), message: string_of(&message) }
}

/// The keys of a template's `var.` references that do not resolve, or the
/// first unknown built-in.
pub fn missing_vars(template_text: &str, ctx: &RenderContext) -> (r: Result<Vec<String>, String>)
    ensures
        ({
            let refs = scan_from(template_text@, Seq::empty());
            match check_refs(refs, ctx@, refs.len() as int) {
                Ok(m) => r matches Ok(v) && v@.map_values(|s: String| s@) == m,
                Err(u) => r matches Err(k) && k@ == u,
            }
        }),
{
    let vars = scan_variables(template_text);
    let ghost refs = scan_from(template_text@, Seq::empty());
    let mut missing: Vec<String> = Vec::new();
    let mut i: usize = 0;
    assert(missing@.map_values(|s: String| s@) =~= Seq::<Seq<char>>::empty());
    while i < vars.len()
        invariant
            i <= vars@.len(),
            vars@.map_values(|v: crate::template::TemplateVar| var_ref_of(v)) == refs,
            refs == scan_from(template_text@, Seq::empty()),
            check_refs(refs, ctx@, i as int) == Ok::<Seq<Seq<char>>, Seq<char>>(
                missing@.map_values(|s: String| s@),
            ),
        decreases vars@.len() - i,
    {
        let v = &vars[i];
        assert(refs[i as int] == var_ref_of(*v));
        let ghost m0 = missing@;
        if str_eq(v.namespace.as_str(), "var") && ctx.resolve("var", v.key.as_str()).is_none() {
            missing.push(v.key.clone());
            assert(missing@.map_values(|s: String| s@) =~= m0.map_values(|s: String| s@).push(v.key@));
        }
        if str_eq(v.namespace.as_str(), "dotling") && ctx.resolve("dotling", v.key.as_str()).is_none() {
            proof {
                reveal_strlit("dotling");
                reveal_strlit("var");
                assert(resolve_spec(ctx@, "dotling"@, v.key@) == get_spec(ctx@.builtins, v.key@));
                assert(check_refs(refs, ctx@, i + 1) == Err::<Seq<Seq<char>>, Seq<char>>(v.key@));
                lemma_check_refs_err(refs, ctx@, i + 1, refs.len() as int);
                assert(refs == scan_from(template_text@, Seq::empty()));
                assert(check_refs(refs, ctx@, refs.len() as int) == Err::<Seq<Seq<char>>, Seq<char>>(v.key@));
            }
            let k = v.key.clone();
            assert(k@ == v.key@);
            return Err(k);
        }
        proof {
            reveal_strlit("dotling");
            reveal_strlit("var");
            assert(resolve_spec(ctx@, "dotling"@, v.key@) == get_spec(ctx@.builtins, v.key@));
        }
        i += 1;
    }
    Ok(missing)
}

fn var_list_vec(keys: &Vec<String>) -> (r: Vec<char>)
    ensures
        r@ == var_list(keys@.map_values(|s: String| s@)),
{
    let ghost ks = keys@.map_values(|s: String| s@);
    let mut v: Vec<char> = Vec::new();
    let mut i: usize = 0;
    while i < keys.len()
        invariant
            i <= keys@.len(),
            ks == keys@.map_values(|s: String| s@),
            v@ == var_list(ks.take(i as int)),
        decreases keys@.len() - i,
    {
        if i == 0 {
            push_str(&mut v, "var.");
        } else {
            push_str(&mut v, ", var.");
        }
        push_str(&mut v, keys[i].as_str());
        proof {
            assert(ks.take(i + 1).drop_last() == ks.take(i as int));
            assert(ks.take(i + 1).last() == ks[i as int]);
            if i == 0 {
                assert(ks.take(1)[0] == ks[0]);
                assert(var_list(ks.take(0)) == Seq::<char>::empty());
            }
        }
        i += 1;
    }
    assert(ks.take(ks.len() as int) == ks);
    v
}

/// Render a newly added template, reporting unresolved variables with the
/// way to fix them.
pub fn render_with_context(template_text: &str, source_name: &str, ctx: &RenderContext) -> (r: Result<String, Error>)
    ensures
        match render_with_context_spec(template_text@, ctx@) {
            Ok(t) => r matches Ok(x) && x@ == t,
            Err(m) => r matches Err(Error::Template { source: s, message: e }) && s@ == source_name@
                && e@ == m,
        },
{
    match missing_vars(template_text, ctx) {
        Err(u) => {
            let mut v: Vec<char> = Vec::new();
            push_str(&mut v, "unknown built-in `dotling.");
            push_str(&mut v, u.as_str());
            push_str(&mut v, "`");
            Err(template_err(source_name, v))
        },
        Ok(m) => {
            if m.len() > 0 {
                let mut v: Vec<char> = Vec::new();
                push_str(&mut v, "unresolved variable");
                if m.len() != 1 {
                    push_str(&mut v, "s");
                }
                push_str(&mut v, ": ");
                let l = var_list_vec(&m);
                crate::text::push_all(&mut v, &l);
                push_str(&mut v, " — run `dotling vars set <key> <value>` then sync");
                proof {
                    reveal_strlit("s");
                }
                Err(template_err(source_name, v))
            } else {
                match render(template_text, ctx, source_name) {
                    Ok(t) => Ok(t),
                    Err(e) => {
                        proof {
                            crate::template::law_pure_render_runs_no_script(template_text@, ctx@, 0);
                        }
                        Err(e)
                    },
                }
            }
        },
    }
}

/// The label an added entry is announced with.
pub open spec fn added_label(template: bool, directory: bool, encrypted: bool) -> Seq<char> {
    if template {
        if encrypted {
            " (template, encrypted)"@
        } else {
            " (template)"@
        }
    } else if directory {
        if encrypted {
            " (directory, encrypted)"@
        } else {
            " (directory)"@
        }
    } else {
        Seq::empty()
    }
}

/// What the user is told once an entry was added.
pub fn added_message(entry: &Entry) -> (r: String)
    ensures
        r@ == entry@.source + " → "@ + entry@.target + added_label(entry.template, entry.directory, entry.encrypted),
{
    let mut v: Vec<char> = Vec::new();
    push_str(&mut v, entry.source.as_str());
    push_str(&mut v, " → ");
    push_str(&mut v, entry.target.as_str());
    let label = if entry.template {
        if entry.encrypted {
            " (template, encrypted)"
        } else {
            " (template)"
        }
    } else if entry.directory {
        if entry.encrypted {
            " (directory, encrypted)"
        } else {
            " (directory)"
        }
    } else {
        ""
    };
    push_str(&mut v, label);
    proof {
        reveal_strlit("");
    }
    string_of(&v)
}

} // verus!
