//! Properties the engine guarantees, stated and proved over the
//! specification functions that `Evaluator::evaluate` is proved to match.

use vstd::prelude::*;

use crate::error::ErrorModel;
use crate::eval::{
    meta_miss, meta_path, meta_use, rv, spec_eval_arg_table, spec_eval_resolve, spec_run_collection,
    spec_eval_stage_path, spec_evaluate, spec_find_char, spec_meta_new, spec_resolve_text,
    spec_resolve_var, spec_run_entry_field, spec_run_map, spec_run_path, spec_scan_var,
    spec_stage_map, spec_stage_path, stack_ok, valid_var_name, Ctx, MetaModel, RScope, Scope,
};
use crate::model::DockerfileModel;
use crate::query::SegModel;
use crate::text::{lemma_strs_insert_sorted, spec_is_name_continue, spec_is_name_start, strs_sorted};
use crate::value::ValueModel;

verus! {

/// Evaluation is deterministic: the result is a function of the document,
/// the overrides, the strictness flag and the query alone, so re-evaluating
/// the same query twice yields identical value and metadata.
pub proof fn lemma_evaluate_deterministic(
    m: DockerfileModel,
    ov: Seq<(Seq<char>, Seq<char>)>,
    strict: bool,
    source: Seq<char>,
    segs: Seq<SegModel>,
    r1: Result<(ValueModel, MetaModel), ErrorModel>,
    r2: Result<(ValueModel, MetaModel), ErrorModel>,
)
    requires
        r1 == spec_evaluate(m, ov, strict, source, segs),
        r2 == spec_evaluate(m, ov, strict, source, segs),
    ensures
        r1 == r2,
{
}

/// `ARG.NAME.SET` is true exactly when `ARG.NAME` succeeds, false exactly
/// when `ARG.NAME` fails with NotFound, and fails with the same fatal
/// error whenever `ARG.NAME` does.
pub proof fn lemma_arg_set_iff_resolves(
    m: DockerfileModel,
    ov: Seq<(Seq<char>, Seq<char>)>,
    strict: bool,
    source: Seq<char>,
    name: Seq<char>,
)
    ensures
        ({
            let set_q = spec_evaluate(
                m,
                ov,
                strict,
                source,
                seq![
                    SegModel::Ident("ARG"@),
                    SegModel::Ident(name),
                    SegModel::Ident("SET"@),
                ],
            );
            let name_q = spec_evaluate(
                m,
                ov,
                strict,
                source,
                seq![SegModel::Ident("ARG"@), SegModel::Ident(name)],
            );
            &&& (set_q matches Ok(p) && p.0 == ValueModel::Bool(true)) <==> name_q is Ok
            &&& (set_q matches Ok(p) && p.0 == ValueModel::Bool(false)) <==> (
            name_q matches Err(e) && e is NotFound)
            &&& set_q is Err <==> (name_q matches Err(e) && e is Eval)
        }),
{
    let ctx = Ctx { m, ov, strict };
    let set_segs = seq![SegModel::Ident("ARG"@), SegModel::Ident(name), SegModel::Ident("SET"@)];
    let name_segs = seq![SegModel::Ident("ARG"@), SegModel::Ident(name)];
    let meta0 = spec_meta_new(Scope::Global);
    reveal_strlit("SET");
    reveal_strlit("DEFAULT");
    assert("SET"@.len() == 3 && "DEFAULT"@.len() == 7);
    assert("SET"@ != "DEFAULT"@);
    let looked = rv(ctx, RScope::Global, name, meta0);
    crate::eval::lemma_resolve_err_is_eval(m, ov, strict, RScope::Global, name, meta0, Seq::empty());
    match looked {
        Err(e) => {
            assert(e is Eval);
        },
        Ok(p) => {},
    }
}


/// The looked-up and missing name sets stay sorted and duplicate-free as
/// the resolver records names, so their iteration order is deterministic.
pub proof fn lemma_meta_name_sets_stay_sorted(meta: MetaModel, name: Seq<char>)
    requires
        strs_sorted(meta.used_vars),
        strs_sorted(meta.missing_vars),
    ensures
        strs_sorted(meta_use(meta, name).used_vars),
        meta_use(meta, name).used_vars.contains(name),
        strs_sorted(meta_miss(meta, name).missing_vars),
        meta_miss(meta, name).missing_vars.contains(name),
{
    lemma_strs_insert_sorted(meta.used_vars, name);
    lemma_strs_insert_sorted(meta.missing_vars, name);
}

/// The sequence of per-element paths a RUN collection records: one for
/// each entry whose per-entry field is NotFound, in entry order.
pub open spec fn run_nf_paths(
    entries: Seq<crate::eval::REntry>,
    segs: Seq<SegModel>,
    i: int,
    k: int,
) -> Seq<Seq<char>>
    decreases entries.len() - k,
        when 0 <= k <= entries.len()
{
    if k >= entries.len() {
        Seq::empty()
    } else {
        let ip = spec_run_path(entries[k].run_index, segs, i);
        let rest = run_nf_paths(entries, segs, i, k + 1);
        match spec_run_entry_field(entries[k], segs, i, ip) {
            Ok(_) => rest,
            Err(e) => if e is NotFound {
                seq![ip] + rest
            } else {
                rest
            },
        }
    }
}

/// For a RUN collection mapped element-wise, the recorded missing paths
/// are exactly the paths of the entries whose evaluation was NotFound, in
/// order, appended to whatever was recorded before; the value is an array
/// with one element per entry.
pub proof fn lemma_run_map_missing_paths(
    entries: Seq<crate::eval::REntry>,
    segs: Seq<SegModel>,
    i: int,
    k: int,
    acc: Seq<ValueModel>,
    meta: MetaModel,
)
    requires
        0 <= k <= entries.len(),
    ensures
        spec_run_map(entries, segs, i, k, acc, meta) matches Ok(p) ==> {
            &&& p.0 matches ValueModel::Array(vals) && vals.len() == acc.len() + (entries.len()
                - k)
            &&& p.1.missing_paths == meta.missing_paths + run_nf_paths(entries, segs, i, k)
            &&& p.1.missing_vars == meta.missing_vars
            &&& p.1.used_vars == meta.used_vars
            &&& p.1.scope == meta.scope
        },
    decreases entries.len() - k,
{
    if k >= entries.len() {
        assert(meta.missing_paths + run_nf_paths(entries, segs, i, k) =~= meta.missing_paths);
    } else {
        let ip = spec_run_path(entries[k].run_index, segs, i);
        match spec_run_entry_field(entries[k], segs, i, ip) {
            Ok(v) => {
                lemma_run_map_missing_paths(entries, segs, i, k + 1, acc.push(v), meta);
            },
            Err(e) => {
                if e is NotFound {
                    lemma_run_map_missing_paths(
                        entries,
                        segs,
                        i,
                        k + 1,
                        acc.push(ValueModel::Null),
                        meta_path(meta, ip),
                    );
                    if spec_run_map(entries, segs, i, k, acc, meta) is Ok {
                        assert(meta_path(meta, ip).missing_paths + run_nf_paths(
                            entries,
                            segs,
                            i,
                            k + 1,
                        ) =~= meta.missing_paths + run_nf_paths(entries, segs, i, k));
                    }
                }
            },
        }
    }
}


/// The sequence of per-stage paths a wildcard stage query records: one for
/// each selected stage whose evaluation is NotFound, in selection order.
pub open spec fn stage_nf_paths(
    ctx: Ctx,
    selected: Seq<int>,
    segs: Seq<SegModel>,
    i: int,
    k: int,
    meta: MetaModel,
) -> Seq<Seq<char>>
    decreases selected.len() - k,
        when 0 <= k <= selected.len()
{
    if k >= selected.len() {
        Seq::empty()
    } else {
        let sp = spec_stage_path(selected[k], segs, i);
        match spec_eval_stage_path(ctx, selected[k], segs, i, sp, meta) {
            Ok(p) => stage_nf_paths(ctx, selected, segs, i, k + 1, p.1),
            Err(e) => if e is NotFound {
                seq![sp] + stage_nf_paths(ctx, selected, segs, i, k + 1, meta_path(meta, sp))
            } else {
                Seq::empty()
            },
        }
    }
}

/// For a wildcard stage query mapped element-wise, the recorded missing
/// paths are exactly the paths of the selected stages whose evaluation was
/// NotFound, in order, appended to whatever was recorded before; the value
/// is an array with one element per selected stage.
pub proof fn lemma_stage_map_missing_paths(
    ctx: Ctx,
    selected: Seq<int>,
    segs: Seq<SegModel>,
    i: int,
    k: int,
    acc: Seq<ValueModel>,
    meta: MetaModel,
)
    requires
        0 <= k <= selected.len(),
    ensures
        spec_stage_map(ctx, selected, segs, i, k, acc, meta) matches Ok(p) ==> {
            &&& p.0 matches ValueModel::Array(vals) && vals.len() == acc.len() + (
            selected.len() - k)
            &&& p.1.missing_paths == meta.missing_paths + stage_nf_paths(
                ctx,
                selected,
                segs,
                i,
                k,
                meta,
            )
            &&& p.1.scope == meta.scope
        },
    decreases selected.len() - k,
{
    if k >= selected.len() {
        assert(meta.missing_paths + stage_nf_paths(ctx, selected, segs, i, k, meta)
            =~= meta.missing_paths);
    } else {
        let sp = spec_stage_path(selected[k], segs, i);
        crate::eval::lemma_stage_path_keeps_paths(ctx, selected[k], segs, i, sp, meta);
        match spec_eval_stage_path(ctx, selected[k], segs, i, sp, meta) {
            Ok(p0) => {
                lemma_stage_map_missing_paths(ctx, selected, segs, i, k + 1, acc.push(p0.0), p0.1);
                if spec_stage_map(ctx, selected, segs, i, k, acc, meta) is Ok {
                    assert(p0.1.missing_paths + stage_nf_paths(ctx, selected, segs, i, k + 1, p0.1)
                        =~= meta.missing_paths + stage_nf_paths(ctx, selected, segs, i, k, meta));
                }
            },
            Err(e) => {
                if e is NotFound {
                    lemma_stage_map_missing_paths(
                        ctx,
                        selected,
                        segs,
                        i,
                        k + 1,
                        acc.push(ValueModel::Null),
                        meta_path(meta, sp),
                    );
                    if spec_stage_map(ctx, selected, segs, i, k, acc, meta) is Ok {
                        assert(meta_path(meta, sp).missing_paths + stage_nf_paths(
                            ctx,
                            selected,
                            segs,
                            i,
                            k + 1,
                            meta_path(meta, sp),
                        ) =~= meta.missing_paths + stage_nf_paths(ctx, selected, segs, i, k, meta));
                    }
                }
            },
        }
    }
}

/// `RESOLVE("$NAME")` and `RESOLVE("${NAME}")` are equivalent for a simple
/// identifier: both expand the same reference and nothing else.
pub proof fn lemma_resolve_forms_equivalent(
    m: DockerfileModel,
    ov: Seq<(Seq<char>, Seq<char>)>,
    strict: bool,
    name: Seq<char>,
)
    requires
        valid_var_name(name),
    ensures
        spec_eval_resolve(
            Ctx { m, ov, strict },
            seq![crate::query::ArgModel::String(seq!['$'] + name)],
            RScope::Global,
            Scope::Global,
        ) == spec_eval_resolve(
            Ctx { m, ov, strict },
            seq![crate::query::ArgModel::String("${"@ + name + "}"@)],
            RScope::Global,
            Scope::Global,
        ),
{
    let ctx = Ctx { m, ov, strict };
    let meta0 = spec_meta_new(Scope::Global);
    let bare = seq!['$'] + name;
    let braced = "${"@ + name + "}"@;
    reveal_strlit("${");
    reveal_strlit("}");
    assert("${"@.len() == 2 && "${"@[0] == '$' && "${"@[1] == '{');
    assert("}"@.len() == 1 && "}"@[0] == '}');

    assert(stack_ok(m, Seq::<(RScope, Seq<char>)>::empty()));

    // The bare form scans the whole name.
    assert(bare.len() == 1 + name.len());
    assert(bare[0] == '$');
    assert(bare[1] == name[0]);
    assert(spec_is_name_start(bare[1]));
    assert(bare[1] != '{') by {
        if bare[1] == '{' {
            assert(('{' as u32) == 123);
            assert(!spec_is_name_start('{'));
        }
    }
    assert(forall|j: int| 2 <= j < bare.len() ==> spec_is_name_continue(#[trigger] bare[j])) by {
        assert(forall|j: int| 2 <= j < bare.len() ==> bare[j] == name[j - 1]);
    }
    lemma_scan_var_to_end(bare, 2);
    assert(spec_scan_var(bare, 2) == bare.len());
    assert(bare.subrange(1, bare.len() as int) =~= name);

    // The braced form finds the closing brace right after the name.
    assert(braced.len() == name.len() + 3);
    assert(braced[0] == '$' && braced[1] == '{');
    assert(forall|j: int| 2 <= j < braced.len() - 1 ==> braced[j] == name[j - 2]);
    assert(braced[braced.len() - 1] == '}');
    assert(forall|j: int| 2 <= j < braced.len() - 1 ==> #[trigger] braced[j] != '}') by {
        assert(('}' as u32) == 125);
        assert(forall|j: int| 2 <= j < braced.len() - 1 ==> spec_is_name_continue(
            #[trigger] braced[j],
        ));
    }
    lemma_find_char_at(braced, 2, '}', braced.len() - 1);
    assert(spec_find_char(braced, 2, '}') == Some(braced.len() - 1));
    assert(braced.subrange(2, braced.len() - 1) =~= name);

    let meta1 = meta_use(meta0, name);
    let looked = spec_resolve_var(m, ov, strict, RScope::Global, name, meta1, Seq::empty());
    match looked {
        Err(e) => {},
        Ok((Some(v), m2)) => {
            assert(spec_resolve_text(m, ov, strict, RScope::Global, bare, bare.len() as int, m2,
                Seq::empty()) == Ok::<(Seq<char>, MetaModel), ErrorModel>((Seq::empty(), m2)));
            assert(spec_resolve_text(
                m,
                ov,
                strict,
                RScope::Global,
                braced,
                braced.len() as int,
                m2,
                Seq::empty(),
            ) == Ok::<(Seq<char>, MetaModel), ErrorModel>((Seq::empty(), m2)));
            assert(v + Seq::<char>::empty() =~= v);
        },
        Ok((None, m2)) => {
            if !strict {
                let m3 = meta_miss(m2, name);
                assert(spec_resolve_text(m, ov, strict, RScope::Global, bare, bare.len() as int,
                    m3, Seq::empty()) == Ok::<(Seq<char>, MetaModel), ErrorModel>((
                    Seq::empty(),
                    m3,
                )));
                assert(spec_resolve_text(
                    m,
                    ov,
                    strict,
                    RScope::Global,
                    braced,
                    braced.len() as int,
                    m3,
                    Seq::empty(),
                ) == Ok::<(Seq<char>, MetaModel), ErrorModel>((Seq::empty(), m3)));
            }
        },
    }
}

/// A run of name-continue characters scans to the end of the template.
proof fn lemma_scan_var_to_end(t: Seq<char>, i: int)
    requires
        0 <= i <= t.len(),
        forall|j: int| i <= j < t.len() ==> spec_is_name_continue(#[trigger] t[j]),
    ensures
        spec_scan_var(t, i) == t.len(),
    decreases t.len() - i,
{
    if i < t.len() {
        lemma_scan_var_to_end(t, i + 1);
    }
}

/// The first occurrence of `c` is at `at` when nothing before it matches.
proof fn lemma_find_char_at(t: Seq<char>, i: int, c: char, at: int)
    requires
        0 <= i <= at < t.len(),
        forall|j: int| i <= j < at ==> #[trigger] t[j] != c,
        t[at] == c,
    ensures
        spec_find_char(t, i, c) == Some(at),
    decreases at - i,
{
    if i < at {
        lemma_find_char_at(t, i + 1, c, at);
    }
}

/// The ARG table object is well-formed when built from a well-formed
/// accumulator.
proof fn lemma_arg_object_wf(
    entries: Seq<(Seq<char>, Option<Seq<char>>)>,
    i: int,
    acc: Seq<(Seq<char>, ValueModel)>,
)
    requires
        0 <= i <= entries.len(),
        crate::value::obj_sorted(acc),
        forall|j: int| 0 <= j < acc.len() ==> crate::value::vm_wf(#[trigger] (acc[j].1)),
    ensures
        crate::value::obj_sorted(crate::eval::spec_arg_object(entries, i, acc)),
        forall|j: int| 0 <= j < crate::eval::spec_arg_object(entries, i, acc).len()
            ==> crate::value::vm_wf(#[trigger] (crate::eval::spec_arg_object(entries, i, acc)[
            j
        ].1)),
    decreases entries.len() - i,
{
    if i < entries.len() {
        crate::value::lemma_obj_insert_wf(
            acc,
            entries[i].0,
            crate::eval::opt_value(entries[i].1),
        );
        lemma_arg_object_wf(
            entries,
            i + 1,
            crate::value::spec_obj_insert(acc, entries[i].0, crate::eval::opt_value(
                entries[i].1,
            )),
        );
    }
}

/// The line-span object is well-formed.
proof fn lemma_span_obj_wf(start: int, end: int)
    ensures
        crate::value::vm_wf(ValueModel::Object(crate::eval::spec_span_obj(start, end))),
{
    let e0 = Seq::<(Seq<char>, ValueModel)>::empty();
    crate::value::lemma_obj_insert_wf(e0, "start"@, ValueModel::Number(
        crate::eval::to_i64(start),
    ));
    crate::value::lemma_obj_insert_wf(
        crate::value::spec_obj_insert(e0, "start"@, ValueModel::Number(
            crate::eval::to_i64(start),
        )),
        "end"@,
        ValueModel::Number(crate::eval::to_i64(end)),
    );
}

/// The stage summary object is well-formed.
proof fn lemma_stage_object_wf(ctx: Ctx, index: int, st: crate::model::Stage, meta: MetaModel)
    ensures
        crate::eval::spec_stage_object(ctx, index, st, meta) matches Ok(p)
            ==> crate::value::vm_wf(p.0),
{
    match crate::eval::spec_resolve_parent(ctx, st, meta) {
        Err(_) => {},
        Ok((resolved, m2)) => {
            let e0 = Seq::<(Seq<char>, ValueModel)>::empty();
            let parent0 = crate::value::spec_obj_insert(e0, "raw"@, ValueModel::String(crate::eval::parent_raw_of(
                st.parent,
            )));
            crate::value::lemma_obj_insert_wf(e0, "raw"@, ValueModel::String(crate::eval::parent_raw_of(st.parent)));
            let parent1 = crate::value::spec_obj_insert(parent0, "resolved"@, ValueModel::String(resolved));
            crate::value::lemma_obj_insert_wf(parent0, "resolved"@, ValueModel::String(resolved));
            let parent2 = crate::value::spec_obj_insert(parent1, "kind"@, ValueModel::String(crate::eval::parent_kind_of(
                st.parent,
            )));
            crate::value::lemma_obj_insert_wf(parent1, "kind"@, ValueModel::String(crate::eval::parent_kind_of(st.parent)));
            let parent3 = match st.parent {
                crate::model::Parent::StageRef(target) => crate::value::spec_obj_insert(parent2, "stage"@,
                    ValueModel::String(target@)),
                _ => parent2,
            };
            match st.parent {
                crate::model::Parent::StageRef(target) => {
                    crate::value::lemma_obj_insert_wf(parent2, "stage"@, ValueModel::String(target@));
                },
                _ => {},
            }
            let s0 = crate::value::spec_obj_insert(e0, "index"@, ValueModel::Number(crate::eval::to_i64(index)));
            crate::value::lemma_obj_insert_wf(e0, "index"@, ValueModel::Number(crate::eval::to_i64(index)));
            let s1 = crate::value::spec_obj_insert(s0, "name"@, crate::eval::opt_value(crate::model::opt_str_view(st.name)));
            crate::value::lemma_obj_insert_wf(s0, "name"@, crate::eval::opt_value(crate::model::opt_str_view(st.name)));
            let s2 = crate::value::spec_obj_insert(s1, "parent"@, ValueModel::Object(parent3));
            crate::value::lemma_obj_insert_wf(s1, "parent"@, ValueModel::Object(parent3));
            lemma_arg_object_wf(st.arg_defaults@, 0, e0);
            let argobj = ValueModel::Object(crate::eval::spec_arg_object(st.arg_defaults@, 0, e0));
            let s3 = crate::value::spec_obj_insert(s2, "arg"@, argobj);
            crate::value::lemma_obj_insert_wf(s2, "arg"@, argobj);
            let imeta = crate::value::spec_obj_insert(e0, "count"@, ValueModel::Number(crate::eval::to_i64(
                st.instructions@.len() as int,
            )));
            crate::value::lemma_obj_insert_wf(e0, "count"@, ValueModel::Number(crate::eval::to_i64(
                st.instructions@.len() as int,
            )));
            crate::value::lemma_obj_insert_wf(s3, "instructions"@, ValueModel::Object(imeta));
        },
    }
}

/// Every per-entry RUN field value is well-formed.
proof fn lemma_run_entry_field_wf(
    e: crate::eval::REntry,
    segs: Seq<SegModel>,
    i: int,
    path: Seq<char>,
)
    ensures
        spec_run_entry_field(e, segs, i, path) matches Ok(v) ==> crate::value::vm_wf(v),
{
    lemma_span_obj_wf(e.start_line, e.end_line);
}

/// The raw-text array of a collection is well-formed.
proof fn lemma_raws_wf(entries: Seq<crate::eval::REntry>)
    ensures
        crate::value::vm_wf(crate::eval::raws_of(entries)),
{
    let arr = crate::eval::raws_of(entries)->Array_0;
    assert forall|j: int| 0 <= j < arr.len() implies crate::value::vm_wf(#[trigger] arr[j]) by {
        assert(arr[j] is String);
    }
}

/// Element-wise mapping keeps the collection value well-formed.
proof fn lemma_run_map_wf(
    entries: Seq<crate::eval::REntry>,
    segs: Seq<SegModel>,
    i: int,
    k: int,
    acc: Seq<ValueModel>,
    meta: MetaModel,
)
    requires
        0 <= k <= entries.len(),
        forall|j: int| 0 <= j < acc.len() ==> crate::value::vm_wf(#[trigger] acc[j]),
    ensures
        spec_run_map(entries, segs, i, k, acc, meta) matches Ok(p) ==> crate::value::vm_wf(p.0),
    decreases entries.len() - k,
{
    if k < entries.len() {
        let ip = spec_run_path(entries[k].run_index, segs, i);
        lemma_run_entry_field_wf(entries[k], segs, i, ip);
        match spec_run_entry_field(entries[k], segs, i, ip) {
            Ok(v) => {
                lemma_run_map_wf(entries, segs, i, k + 1, acc.push(v), meta);
            },
            Err(e) => {
                if e is NotFound {
                    lemma_run_map_wf(
                        entries,
                        segs,
                        i,
                        k + 1,
                        acc.push(ValueModel::Null),
                        meta_path(meta, ip),
                    );
                }
            },
        }
    }
}

/// Every RUN collection result is well-formed.
proof fn lemma_run_collection_wf(
    ctx: Ctx,
    entries: Seq<crate::eval::REntry>,
    segs: Seq<SegModel>,
    i: int,
    path: Seq<char>,
    meta: MetaModel,
)
    requires
        0 <= i <= segs.len(),
    ensures
        spec_run_collection(ctx, entries, segs, i, path, meta) matches Ok(p)
            ==> crate::value::vm_wf(p.0),
    decreases segs.len() - i,
{
    lemma_raws_wf(entries);
    if i < segs.len() {
        if segs[i] matches SegModel::Function { ident, args } {
            let fname = segs[i]->Function_ident;
            let fargs = segs[i]->Function_args;
            if fname == "GREP"@ {
                match crate::eval::spec_single_string_arg(fargs, "GREP"@) {
                    Err(_) => {},
                    Ok(needle) => {
                        lemma_run_collection_wf(
                            ctx,
                            crate::eval::grep_filter(entries, needle),
                            segs,
                            i + 1,
                            path,
                            meta,
                        );
                    },
                }
            }
        }
        lemma_run_map_wf(entries, segs, i, 0, Seq::empty(), meta);
    }
}

/// Every ARG subtree result is well-formed.
proof fn lemma_arg_table_wf(
    ctx: Ctx,
    entries: Seq<(Seq<char>, Option<Seq<char>>)>,
    scope: RScope,
    segs: Seq<SegModel>,
    i: int,
    path: Seq<char>,
    meta: MetaModel,
)
    ensures
        spec_eval_arg_table(ctx, entries, scope, segs, i, path, meta) matches Ok(p)
            ==> crate::value::vm_wf(p.0),
{
    lemma_arg_object_wf(entries, 0, Seq::empty());
}

/// Every stage-path result is well-formed.
proof fn lemma_stage_path_wf(
    ctx: Ctx,
    si: int,
    segs: Seq<SegModel>,
    i: int,
    path: Seq<char>,
    meta: MetaModel,
)
    ensures
        spec_eval_stage_path(ctx, si, segs, i, path, meta) matches Ok(p)
            ==> crate::value::vm_wf(p.0),
{
    if 0 <= si < ctx.m.stages@.len() {
        let st = ctx.m.stages@[si];
        lemma_stage_object_wf(ctx, si, st, meta);
        lemma_arg_table_wf(
            ctx,
            st.arg_defaults@,
            RScope::Stage(si as usize),
            segs,
            i + 1,
            path,
            meta,
        );
        if i < segs.len() {
            match segs[i] {
                SegModel::Indexed { ident, index } => {
                    match index {
                        crate::query::IndexModel::Position(n) => {
                            if 0 <= n < st.instructions@.len() {
                                lemma_span_obj_wf(
                                    st.instructions@[n].start_line as int,
                                    st.instructions@[n].end_line as int,
                                );
                            }
                        },
                        _ => {},
                    }
                },
                _ => {},
            }
        }
    }
}

/// Every `FROM` mapping result is well-formed.
proof fn lemma_from_all_wf(
    ctx: Ctx,
    si: int,
    segs: Seq<SegModel>,
    i: int,
    acc: Seq<ValueModel>,
    meta: MetaModel,
    path: Seq<char>,
)
    requires
        0 <= si <= ctx.m.stages@.len(),
        forall|j: int| 0 <= j < acc.len() ==> crate::value::vm_wf(#[trigger] acc[j]),
    ensures
        crate::eval::spec_from_all(ctx, si, segs, i, acc, meta, path) matches Ok(p)
            ==> crate::value::vm_wf(p.0),
    decreases ctx.m.stages@.len() - si,
{
    if si < ctx.m.stages@.len() {
        match crate::eval::spec_from_stage(ctx, ctx.m.stages@[si], segs, i, meta, path) {
            Err(_) => {},
            Ok((v, m2)) => {
                assert(crate::value::vm_wf(v));
                lemma_from_all_wf(ctx, si + 1, segs, i, acc.push(v), m2, path);
            },
        }
    }
}

/// Every stage summary array is well-formed.
proof fn lemma_stage_all_wf(ctx: Ctx, si: int, acc: Seq<ValueModel>, meta: MetaModel)
    requires
        0 <= si <= ctx.m.stages@.len(),
        forall|j: int| 0 <= j < acc.len() ==> crate::value::vm_wf(#[trigger] acc[j]),
    ensures
        crate::eval::spec_stage_all(ctx, si, acc, meta) matches Ok(p) ==> crate::value::vm_wf(
            p.0,
        ),
    decreases ctx.m.stages@.len() - si,
{
    if si < ctx.m.stages@.len() {
        lemma_stage_object_wf(ctx, si, ctx.m.stages@[si], meta);
        match crate::eval::spec_stage_object(ctx, si, ctx.m.stages@[si], meta) {
            Err(_) => {},
            Ok((v, m2)) => {
                lemma_stage_all_wf(ctx, si + 1, acc.push(v), m2);
            },
        }
    }
}

/// Every wildcard stage mapping is well-formed.
proof fn lemma_stage_map_wf(
    ctx: Ctx,
    selected: Seq<int>,
    segs: Seq<SegModel>,
    i: int,
    k: int,
    acc: Seq<ValueModel>,
    meta: MetaModel,
)
    requires
        0 <= k <= selected.len(),
        forall|j: int| 0 <= j < acc.len() ==> crate::value::vm_wf(#[trigger] acc[j]),
    ensures
        spec_stage_map(ctx, selected, segs, i, k, acc, meta) matches Ok(p)
            ==> crate::value::vm_wf(p.0),
    decreases selected.len() - k,
{
    if k < selected.len() {
        let sp = spec_stage_path(selected[k], segs, i);
        lemma_stage_path_wf(ctx, selected[k], segs, i, sp, meta);
        match spec_eval_stage_path(ctx, selected[k], segs, i, sp, meta) {
            Ok((v, m2)) => {
                lemma_stage_map_wf(ctx, selected, segs, i, k + 1, acc.push(v), m2);
            },
            Err(e) => {
                if e is NotFound {
                    lemma_stage_map_wf(
                        ctx,
                        selected,
                        segs,
                        i,
                        k + 1,
                        acc.push(ValueModel::Null),
                        meta_path(meta, sp),
                    );
                }
            },
        }
    }
}

/// Every value an evaluation yields is well-formed: each object in the
/// tree keeps its keys sorted and unique, so rendering is deterministic.
pub proof fn lemma_evaluate_value_wf(
    m: DockerfileModel,
    ov: Seq<(Seq<char>, Seq<char>)>,
    strict: bool,
    source: Seq<char>,
    segs: Seq<SegModel>,
)
    ensures
        spec_evaluate(m, ov, strict, source, segs) matches Ok(p) ==> crate::value::vm_wf(p.0),
{
    let ctx = Ctx { m, ov, strict };
    if segs.len() > 0 {
        match segs[0] {
            SegModel::Ident(kw) => {
                lemma_arg_table_wf(
                    ctx,
                    m.global_args@,
                    RScope::Global,
                    segs,
                    1,
                    source,
                    spec_meta_new(Scope::Global),
                );
                lemma_from_all_wf(
                    ctx,
                    0,
                    segs,
                    1,
                    Seq::empty(),
                    spec_meta_new(Scope::Global),
                    source,
                );
                lemma_run_collection_wf(
                    ctx,
                    crate::eval::run_entries(m),
                    segs,
                    1,
                    source,
                    spec_meta_new(Scope::Global),
                );
                lemma_stage_all_wf(ctx, 0, Seq::empty(), spec_meta_new(Scope::Global));
            },
            SegModel::Indexed { ident, index } => {
                if ident == "FROM"@ {
                    match index {
                        crate::query::IndexModel::Position(n) => {
                            if 0 <= n < m.stages@.len() {
                                match crate::eval::spec_from_stage(
                                    ctx,
                                    m.stages@[n],
                                    segs,
                                    1,
                                    spec_meta_new(Scope::Global),
                                    source,
                                ) {
                                    Ok((v, _)) => {
                                        assert(crate::value::vm_wf(v));
                                    },
                                    Err(_) => {},
                                }
                            }
                        },
                        crate::query::IndexModel::Wildcard => {
                            lemma_from_all_wf(
                                ctx,
                                0,
                                segs,
                                1,
                                Seq::empty(),
                                spec_meta_new(Scope::Global),
                                source,
                            );
                        },
                        _ => {},
                    }
                } else if ident == "RUN"@ {
                    match index {
                        crate::query::IndexModel::Position(n) => {
                            let entries = crate::eval::run_entries(m);
                            if 0 <= n < entries.len() {
                                lemma_run_entry_field_wf(entries[n], segs, 1, source);
                            }
                        },
                        crate::query::IndexModel::Wildcard => {
                            lemma_run_collection_wf(
                                ctx,
                                crate::eval::run_entries(m),
                                segs,
                                1,
                                source,
                                spec_meta_new(Scope::Global),
                            );
                        },
                        _ => {},
                    }
                } else if ident == "STAGE"@ {
                    match crate::eval::spec_select_stages(m, index, source) {
                        Err(_) => {},
                        Ok(selected) => {
                            match index {
                                crate::query::IndexModel::Wildcard => {
                                    lemma_stage_map_wf(
                                        ctx,
                                        selected,
                                        segs,
                                        1,
                                        0,
                                        Seq::empty(),
                                        spec_meta_new(Scope::StageWildcard),
                                    );
                                },
                                crate::query::IndexModel::Position(n) => {
                                    lemma_stage_path_wf(
                                        ctx,
                                        n,
                                        segs,
                                        1,
                                        source,
                                        spec_meta_new(Scope::Stage(n as usize)),
                                    );
                                },
                                crate::query::IndexModel::Key(_) => {
                                    if selected.len() > 0 {
                                        lemma_stage_path_wf(
                                            ctx,
                                            selected[0],
                                            segs,
                                            1,
                                            source,
                                            spec_meta_new(Scope::Stage(selected[0] as usize)),
                                        );
                                    }
                                },
                            }
                        },
                    }
                }
            },
            SegModel::Function { ident, args } => {},
        }
    }
}

} // verus!
