//! Laws that relate several steps of the shell.
use vstd::prelude::*;
use crate::builtins::{builtin_of, lemma_split_unique, listing, single_assignment, Builtin};
use crate::env::{is_path_key, path_dirs, bindings, has_key, is_last_of, keys_unique, lemma_last_chosen, lemma_set_all_vars, lemma_unique_binding};
use crate::parse::{InvModel, splits_at_first_eq};
use crate::shell::{acts, after_cd, effective, export_pair, exportable, next_state, ActionModel, ShellModel};
use crate::text::has_char;

verus! {

/// Each leading assignment of a line binds its key, the text before its
/// first `=`, to its value, all the text after it, in the line's effective
/// environment; a line of assignments alone keeps that binding in the store.
/// Where a key is assigned twice, the later assignment wins.
pub proof fn lemma_assignment_binds(s: ShellModel, i: InvModel, ws: Seq<Seq<char>>, j: int)
    requires
        i.reads(ws),
        0 <= j < i.assigns.len(),
        forall|m: int| j < m < i.assigns.len() ==> #[trigger] i.assigns[m].0 != i.assigns[j].0,
    ensures
        ws[j] == i.assigns[j].0 + seq!['='] + i.assigns[j].1,
        !has_char(i.assigns[j].0, '='),
        effective(s, i).vars.contains_key(i.assigns[j].0),
        effective(s, i).vars[i.assigns[j].0] == i.assigns[j].1,
        i.exe is None ==> next_state(s, i).env.vars[i.assigns[j].0] == i.assigns[j].1,
{
    assert(splits_at_first_eq(ws[j], i.assigns[j].0, i.assigns[j].1));
    lemma_set_all_vars(s.env, i.assigns);
    assert(is_last_of(i.assigns, i.assigns[j].0, j));
    lemma_last_chosen(i.assigns, i.assigns[j].0, j);
}

/// After `export k=v`, with `k` and `v` free of `=`, a plain `env` lists the
/// line `k=v`.
pub proof fn lemma_export_then_env(
    s: ShellModel,
    k: Seq<char>,
    v: Seq<char>,
    ex: InvModel,
    en: InvModel,
    a: ActionModel,
)
    requires
        !has_char(k, '='),
        !has_char(v, '='),
        ex.exe is Some,
        builtin_of(ex.exe->0) == Some(Builtin::Export),
        ex.args == seq![k + seq!['='] + v],
        en.exe is Some,
        builtin_of(en.exe->0) == Some(Builtin::Env),
        en.assigns.len() == 0,
        acts(next_state(s, ex), en, a),
    ensures
        exists|p: Seq<(Seq<char>, Seq<char>)>|
            a == ActionModel::Print(#[trigger] listing(p)) && p.contains((k, v)),
{
    let t = ex.args[0];
    assert(single_assignment(t, k, v));
    assert(exportable(ex.args));
    let (k2, v2) = export_pair(t);
    lemma_split_unique(t, k, v, k2, v2);
    let s2 = next_state(s, ex);
    assert(s2.env.vars[k] == v);
    assert(effective(s2, en) == s2.env);
    let p = choose|p: Seq<(Seq<char>, Seq<char>)>|
        keys_unique(p) && bindings(p) == s2.env.vars && a == ActionModel::Print(
            #[trigger] listing(p),
        );
    assert(s2.env.vars.contains_key(k));
    assert(bindings(p).contains_key(k));
    assert(has_key(p, k));
    let w = choose|w: int| 0 <= w < p.len() && #[trigger] p[w].0 == k;
    lemma_unique_binding(p, w);
    assert(p[w] == (k, v));
    assert(p.contains((k, v)));
}

/// A temporary assignment on a line whose command is not `export` is not
/// kept: the store is as it was, and a plain `env` afterwards lists only
/// bindings that the store held before that line.
pub proof fn lemma_temporary_not_kept(s: ShellModel, t: InvModel, en: InvModel, a: ActionModel)
    requires
        t.exe is Some,
        builtin_of(t.exe->0) != Some(Builtin::Export),
        en.exe is Some,
        builtin_of(en.exe->0) == Some(Builtin::Env),
        en.assigns.len() == 0,
        acts(next_state(s, t), en, a),
    ensures
        next_state(s, t) == s,
        exists|p: Seq<(Seq<char>, Seq<char>)>|
            a == ActionModel::Print(#[trigger] listing(p)) && forall|j: int|
                0 <= j < p.len() ==> s.env.vars.contains_key(#[trigger] p[j].0) && s.env.vars[p[j].0]
                    == p[j].1,
{
    assert(effective(s, en) == s.env);
    let p = choose|p: Seq<(Seq<char>, Seq<char>)>|
        keys_unique(p) && bindings(p) == s.env.vars && a == ActionModel::Print(
            #[trigger] listing(p),
        );
    assert forall|j: int| 0 <= j < p.len() implies s.env.vars.contains_key(#[trigger] p[j].0)
        && s.env.vars[p[j].0] == p[j].1 by {
        lemma_unique_binding(p, j);
    }
}

/// A `cd` that failed leaves the working directory as it was, and a `pwd`
/// that follows prints it.
pub proof fn lemma_failed_cd_keeps_cwd(s: ShellModel, pw: InvModel, a: ActionModel)
    requires
        pw.exe is Some,
        builtin_of(pw.exe->0) == Some(Builtin::Pwd),
        acts(after_cd(s, None), pw, a),
    ensures
        after_cd(s, None) == s,
        a == ActionModel::Print(s.cwd + "\n"@),
{
}

/// Once a `PATH` key is set to `v`, a `type` or `which` of a name that is no
/// builtin searches exactly the directories of `v`, in their order; the
/// first of them that holds the name is the one reported.
pub proof fn lemma_lookup_follows_path(
    s: ShellModel,
    k: Seq<char>,
    v: Seq<char>,
    q: InvModel,
    a: ActionModel,
)
    requires
        is_path_key(k),
        q.exe is Some,
        builtin_of(q.exe->0) == Some(Builtin::Type) || builtin_of(q.exe->0) == Some(Builtin::Which),
        q.assigns.len() == 0,
        q.args.len() > 0,
        builtin_of(q.args[0]) is None,
        acts(ShellModel { env: s.env.set(k, v), cwd: s.cwd }, q, a),
    ensures
        a == (ActionModel::Lookup { name: q.args[0], dirs: path_dirs(v) }),
{
    assert(effective(ShellModel { env: s.env.set(k, v), cwd: s.cwd }, q) == s.env.set(k, v));
}

} // verus!
