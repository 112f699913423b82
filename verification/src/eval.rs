//! The evaluation engine: dispatches on the first query segment, walks the
//! document, resolves `$NAME` / `${NAME}` references with scoped lookup and
//! cycle detection, and degrades per-element NotFound results to nulls
//! inside wildcard and collection queries.

use vstd::prelude::*;

use crate::error::{Error, ErrorModel};
use crate::model::{opt_str_view, spec_arg_lookup, ArgDefaults, DockerfileModel, Parent, Stage};
use crate::query::{
    args_view, segs_view, Arg, ArgModel, Index, IndexModel, Query, SegModel, Segment,
};
use crate::text::{
    append_chars, append_str, chars_contains, chars_to_string, dec_chars_i64, dec_chars_u64,
    sorted_insert_str, spec_dec_int, spec_dec_nat, str_contains, str_eq, str_to_chars, strs_insert,
    strs_view,
};
use crate::value::{
    obj_insert, pairs_view, spec_obj_insert, vm_of, vms_of, Value, ValueModel,
};

verus! {

/// The namespace a lookup or interpolation runs against.
#[derive(Debug, Clone, Copy, PartialEq, Eq, Structural)]
pub enum Scope {
    Global,
    Stage(usize),
    StageWildcard,
}

/// The display text of a scope.
pub open spec fn spec_scope_string(s: Scope) -> Seq<char> {
    match s {
        Scope::Global => "global"@,
        Scope::Stage(i) => "stage["@ + spec_dec_nat(i as nat) + "]"@,
        Scope::StageWildcard => "stage[*]"@,
    }
}

impl Scope {
    /// The display text of this scope.
    pub fn as_str(&self) -> (r: String)
        ensures
            r@ == spec_scope_string(*self),
    {
        match self {
            Scope::Global => {
                let mut out: Vec<char> = Vec::new();
                append_str(&mut out, "global");
                proof {
                    assert(out@ =~= "global"@);
                }
                chars_to_string(&out)
            },
            Scope::Stage(index) => {
                let mut out: Vec<char> = Vec::new();
                append_str(&mut out, "stage[");
                let digits = dec_chars_u64(*index as u64);
                append_chars(&mut out, &digits);
                append_str(&mut out, "]");
                proof {
                    assert(out@ =~= spec_scope_string(*self));
                }
                chars_to_string(&out)
            },
            Scope::StageWildcard => {
                let mut out: Vec<char> = Vec::new();
                append_str(&mut out, "stage[*]");
                proof {
                    assert(out@ =~= "stage[*]"@);
                }
                chars_to_string(&out)
            },
        }
    }
}

/// The caller-supplied override map: name to literal value, highest
/// priority, never re-interpolated. Keys are unique; a repeated `insert`
/// replaces the earlier value.
#[derive(Debug, Clone)]
pub struct Overrides {
    entries: Vec<(String, String)>,
}

impl View for Overrides {
    type V = Seq<(Seq<char>, Seq<char>)>;

    closed spec fn view(&self) -> Seq<(Seq<char>, Seq<char>)> {
        Seq::new(self.entries@.len(), |i: int| (self.entries@[i].0@, self.entries@[i].1@))
    }
}

/// What looking a name up in the override entries yields: the first match.
pub open spec fn spec_ov_lookup(entries: Seq<(Seq<char>, Seq<char>)>, name: Seq<char>) -> Option<
    Seq<char>,
>
    decreases entries.len(),
{
    if entries.len() == 0 {
        None
    } else if entries[0].0 == name {
        Some(entries[0].1)
    } else {
        spec_ov_lookup(entries.skip(1), name)
    }
}

impl Overrides {
    pub fn new() -> (r: Self)
        ensures
            r@ == Seq::<(Seq<char>, Seq<char>)>::empty(),
    {
        let r = Self { entries: Vec::new() };
        proof {
            assert(r@ =~= Seq::<(Seq<char>, Seq<char>)>::empty());
        }
        r
    }

    /// Sets an override, replacing an earlier one of the same name.
    pub fn insert(&mut self, name: String, value: String)
        ensures
            spec_ov_lookup(final(self)@, name@) == Some(value@),
            forall|other: Seq<char>| other != name@ ==> spec_ov_lookup(final(self)@, other)
                == spec_ov_lookup(old(self)@, other),
    {
        let ghost entries0 = self@;
        let ghost gname = name@;
        let ghost gval = value@;
        let mut i: usize = 0;
        loop
            invariant
                entries0 == old(self)@,
                self@ == entries0,
                self.entries@.len() == entries0.len(),
                i <= entries0.len(),
                gname == name@,
                gval == value@,
                forall|j: int| 0 <= j < i ==> (#[trigger] entries0[j]).0 != gname,
            decreases entries0.len() - i,
        {
            if i >= self.entries.len() {
                self.entries.push((name, value));
                proof {
                    let post = self@;
                    assert(post.len() == entries0.len() + 1);
                    assert(forall|j: int| 0 <= j < entries0.len() ==> #[trigger] post[j]
                        == entries0[j]);
                    assert(post[entries0.len() as int] == (gname, gval));
                    lemma_ov_append_new(entries0, gname, gval);
                    assert(post =~= entries0.push((gname, gval)));
                }
                return;
            }
            proof {
                assert(entries0[i as int] == (self.entries@[i as int].0@, self.entries@[
                    i as int
                ].1@));
            }
            if str_eq(name.as_str(), self.entries[i].0.as_str()) {
                self.entries.remove(i);
                self.entries.insert(i, (name, value));
                proof {
                    let post = self@;
                    assert(post.len() == entries0.len());
                    assert(forall|j: int|
                        0 <= j < entries0.len() && j != i as int ==> #[trigger] post[j]
                            == entries0[j]);
                    assert(post[i as int] == (gname, gval));
                    lemma_ov_replace(entries0, post, i as int, gname, gval);
                }
                return;
            }
            i += 1;
        }
    }

    /// Looks an override up by exact name.
    pub fn get(&self, name: &str) -> (r: Option<String>)
        ensures
            match r {
                Some(v) => spec_ov_lookup(self@, name@) == Some(v@),
                None => spec_ov_lookup(self@, name@) is None,
            },
    {
        let ghost entries = self@;
        let mut i: usize = 0;
        proof {
            assert(entries.skip(0) =~= entries);
        }
        loop
            invariant
                entries == self@,
                i <= entries.len(),
                entries.len() == self.entries@.len(),
                spec_ov_lookup(entries, name@) == spec_ov_lookup(entries.skip(i as int), name@),
            decreases entries.len() - i,
        {
            if i >= self.entries.len() {
                return None;
            }
            proof {
                assert(entries[i as int] == (self.entries@[i as int].0@, self.entries@[
                    i as int
                ].1@));
                assert(entries.skip(i as int)[0] == entries[i as int]);
            }
            if str_eq(name, self.entries[i].0.as_str()) {
                return Some(self.entries[i].1.clone());
            }
            proof {
                assert(entries.skip(i as int).skip(1) =~= entries.skip(i + 1));
            }
            i += 1;
        }
    }
}

proof fn lemma_ov_append_new(entries: Seq<(Seq<char>, Seq<char>)>, name: Seq<char>, value: Seq<char>)
    requires
        forall|j: int| 0 <= j < entries.len() ==> (#[trigger] entries[j]).0 != name,
    ensures
        spec_ov_lookup(entries.push((name, value)), name) == Some(value),
        forall|other: Seq<char>| other != name ==> spec_ov_lookup(entries.push((name, value)), other)
            == spec_ov_lookup(entries, other),
    decreases entries.len(),
{
    let p = entries.push((name, value));
    if entries.len() == 0 {
        assert(p[0] == (name, value));
        assert(p.len() == 1);
        assert(p.skip(1) =~= Seq::<(Seq<char>, Seq<char>)>::empty());
        assert forall|other: Seq<char>| other != name implies spec_ov_lookup(p, other)
            == spec_ov_lookup(entries, other) by {
            assert(spec_ov_lookup(p, other) == spec_ov_lookup(p.skip(1), other));
        }
    } else {
        assert(p[0] == entries[0]);
        assert(p.skip(1) =~= entries.skip(1).push((name, value)));
        lemma_ov_append_new(entries.skip(1), name, value);
        assert(entries[0].0 != name);
        assert forall|other: Seq<char>| other != name implies spec_ov_lookup(p, other)
            == spec_ov_lookup(entries, other) by {
            if entries[0].0 != other {
                assert(spec_ov_lookup(p, other) == spec_ov_lookup(p.skip(1), other));
                assert(spec_ov_lookup(entries, other) == spec_ov_lookup(entries.skip(1), other));
            }
        }
    }
}

proof fn lemma_ov_replace(
    pre: Seq<(Seq<char>, Seq<char>)>,
    post: Seq<(Seq<char>, Seq<char>)>,
    at: int,
    name: Seq<char>,
    value: Seq<char>,
)
    requires
        0 <= at < pre.len(),
        post.len() == pre.len(),
        forall|j: int| 0 <= j < pre.len() && j != at ==> #[trigger] post[j] == pre[j],
        post[at] == (name, value),
        pre[at].0 == name,
        forall|j: int| 0 <= j < at ==> (#[trigger] pre[j]).0 != name,
    ensures
        spec_ov_lookup(post, name) == Some(value),
        forall|other: Seq<char>| other != name ==> spec_ov_lookup(post, other) == spec_ov_lookup(
            pre,
            other,
        ),
    decreases at,
{
    if at == 0 {
        assert(post[0] == (name, value));
        assert forall|other: Seq<char>| other != name implies spec_ov_lookup(post, other)
            == spec_ov_lookup(pre, other) by {
            assert(post.skip(1) =~= pre.skip(1));
            assert(spec_ov_lookup(post, other) == spec_ov_lookup(post.skip(1), other));
            assert(spec_ov_lookup(pre, other) == spec_ov_lookup(pre.skip(1), other));
        }
    } else {
        assert(post[0] == pre[0]);
        assert(pre[0].0 != name);
        let pre1 = pre.skip(1);
        let post1 = post.skip(1);
        assert(forall|j: int| 0 <= j < pre1.len() && j != at - 1 ==> #[trigger] post1[j]
            == pre1[j]);
        assert(post1[at - 1] == post[at]);
        assert(pre1[at - 1] == pre[at]);
        assert(forall|j: int| 0 <= j < at - 1 ==> (#[trigger] pre1[j]).0 != name);
        lemma_ov_replace(pre1, post1, at - 1, name, value);
        assert forall|other: Seq<char>| other != name implies spec_ov_lookup(post, other)
            == spec_ov_lookup(pre, other) by {
            if pre[0].0 != other {
                assert(spec_ov_lookup(post, other) == spec_ov_lookup(post1, other));
                assert(spec_ov_lookup(pre, other) == spec_ov_lookup(pre1, other));
            }
        }
    }
}

/// The mathematical shape of an [`EvalMeta`].
pub struct MetaModel {
    pub scope: Scope,
    pub missing_vars: Seq<Seq<char>>,
    pub used_vars: Seq<Seq<char>>,
    pub missing_paths: Seq<Seq<char>>,
}

/// Evaluation metadata: the scope the query ran under, the variable names
/// looked up and found missing (both kept sorted and unique), and the
/// per-element paths a wildcard query found absent, in iteration order.
#[derive(Debug, Clone)]
pub struct EvalMeta {
    pub scope: Scope,
    pub missing_vars: Vec<String>,
    pub used_vars: Vec<String>,
    pub missing_paths: Vec<String>,
}

impl View for EvalMeta {
    type V = MetaModel;

    open spec fn view(&self) -> MetaModel {
        MetaModel {
            scope: self.scope,
            missing_vars: strs_view(self.missing_vars@),
            used_vars: strs_view(self.used_vars@),
            missing_paths: strs_view(self.missing_paths@),
        }
    }
}

/// A fresh meta record under the given scope.
pub open spec fn spec_meta_new(scope: Scope) -> MetaModel {
    MetaModel {
        scope,
        missing_vars: Seq::empty(),
        used_vars: Seq::empty(),
        missing_paths: Seq::empty(),
    }
}

/// Records a looked-up name.
pub open spec fn meta_use(m: MetaModel, name: Seq<char>) -> MetaModel {
    MetaModel { used_vars: strs_insert(m.used_vars, name), ..m }
}

/// Records an unresolved name.
pub open spec fn meta_miss(m: MetaModel, name: Seq<char>) -> MetaModel {
    MetaModel { missing_vars: strs_insert(m.missing_vars, name), ..m }
}

/// Records a per-element path that resolved to absent.
pub open spec fn meta_path(m: MetaModel, path: Seq<char>) -> MetaModel {
    MetaModel { missing_paths: m.missing_paths.push(path), ..m }
}

/// The value array a sorted name list renders to.
pub open spec fn spec_string_array(names: Seq<Seq<char>>) -> ValueModel {
    ValueModel::Array(Seq::new(names.len(), |i: int| ValueModel::String(names[i])))
}

/// The meta projection: `scope` always, the variable lists on request,
/// `missing_paths` only when any were recorded.
pub open spec fn spec_meta_value(m: MetaModel, include_var_details: bool) -> ValueModel {
    let base = spec_obj_insert(
        Seq::empty(),
        "scope"@,
        ValueModel::String(spec_scope_string(m.scope)),
    );
    let with_vars = if include_var_details {
        spec_obj_insert(
            spec_obj_insert(base, "missing_vars"@, spec_string_array(m.missing_vars)),
            "used_vars"@,
            spec_string_array(m.used_vars),
        )
    } else {
        base
    };
    let with_paths = if m.missing_paths.len() > 0 {
        spec_obj_insert(with_vars, "missing_paths"@, spec_string_array(m.missing_paths))
    } else {
        with_vars
    };
    ValueModel::Object(with_paths)
}

/// Renders a name list as an array of strings.
fn string_array_value(names: &Vec<String>) -> (r: Value)
    ensures
        r@ == spec_string_array(strs_view(names@)),
        crate::value::vm_wf(r@),
{
    let mut items: Vec<Value> = Vec::new();
    let mut i: usize = 0;
    while i < names.len()
        invariant
            i <= names@.len(),
            items@.len() == i,
            forall|j: int| 0 <= j < i ==> vm_of(#[trigger] items@[j]) == ValueModel::String(
                names@[j]@,
            ),
        decreases names@.len() - i,
    {
        items.push(Value::String(names[i].clone()));
        i += 1;
    }
    let ghost items_snapshot = items@;
    let r = Value::Array(items);
    proof {
        crate::value::lemma_vms_of(items_snapshot);
        let target = Seq::new(
            strs_view(names@).len(),
            |j: int| ValueModel::String(strs_view(names@)[j]),
        );
        assert forall|j: int| 0 <= j < items_snapshot.len() implies vms_of(items_snapshot)[j]
            == target[j] by {
            assert(vms_of(items_snapshot)[j] == vm_of(items_snapshot[j]));
            assert(strs_view(names@)[j] == names@[j]@);
        }
        assert(vms_of(items_snapshot) =~= target);
        assert(r@ == ValueModel::Array(vms_of(items_snapshot)));
        assert forall|j: int| 0 <= j < target.len() implies crate::value::vm_wf(
            #[trigger] target[j],
        ) by {
            assert(target[j] is String);
        }
        assert(crate::value::vm_wf(r@));
    }
    r
}

impl EvalMeta {
    pub fn new(scope: Scope) -> (r: Self)
        ensures
            r@ == spec_meta_new(scope),
    {
        let r = Self {
            scope,
            missing_vars: Vec::new(),
            used_vars: Vec::new(),
            missing_paths: Vec::new(),
        };
        proof {
            assert(strs_view(r.missing_vars@) =~= Seq::<Seq<char>>::empty());
            assert(strs_view(r.used_vars@) =~= Seq::<Seq<char>>::empty());
            assert(strs_view(r.missing_paths@) =~= Seq::<Seq<char>>::empty());
        }
        r
    }

    /// Projects the metadata into a value object: well-formed, with its
    /// keys sorted.
    pub fn to_value(&self, include_var_details: bool) -> (r: Value)
        ensures
            r@ == spec_meta_value(self@, include_var_details),
            crate::value::vm_wf(r@),
    {
        let mut pairs: Vec<(String, Value)> = Vec::new();
        proof {
            assert(pairs_view(pairs@) =~= Seq::<(Seq<char>, ValueModel)>::empty());
        }
        let scope_text = self.scope.as_str();
        let ghost p0 = pairs_view(pairs@);
        obj_insert(&mut pairs, String::from_str("scope"), Value::String(scope_text));
        proof {
            crate::value::lemma_obj_insert_wf(
                p0,
                "scope"@,
                ValueModel::String(spec_scope_string(self.scope)),
            );
        }
        if include_var_details {
            let ghost p1 = pairs_view(pairs@);
            let missing = string_array_value(&self.missing_vars);
            let ghost mv = missing@;
            obj_insert(&mut pairs, String::from_str("missing_vars"), missing);
            proof {
                crate::value::lemma_obj_insert_wf(p1, "missing_vars"@, mv);
            }
            let ghost p2 = pairs_view(pairs@);
            let used = string_array_value(&self.used_vars);
            let ghost uv = used@;
            obj_insert(&mut pairs, String::from_str("used_vars"), used);
            proof {
                crate::value::lemma_obj_insert_wf(p2, "used_vars"@, uv);
            }
        }
        if self.missing_paths.len() > 0 {
            proof {
                assert(strs_view(self.missing_paths@).len() > 0);
            }
            let ghost p3 = pairs_view(pairs@);
            let paths = string_array_value(&self.missing_paths);
            let ghost pv = paths@;
            obj_insert(&mut pairs, String::from_str("missing_paths"), paths);
            proof {
                crate::value::lemma_obj_insert_wf(p3, "missing_paths"@, pv);
            }
        } else {
            proof {
                assert(strs_view(self.missing_paths@).len() == 0);
            }
        }
        Value::Object(pairs)
    }
}

/// The result of one evaluation: the value and its metadata.
#[derive(Debug)]
pub struct EvalResult {
    pub value: Value,
    pub meta: EvalMeta,
}

/// The namespace a single variable lookup runs against: interpolation never
/// runs under a wildcard.
#[derive(Debug, Clone, Copy, PartialEq, Eq, Structural)]
pub enum RScope {
    Global,
    Stage(usize),
}

/// One entry of the resolution stack: which (scope, name) defaults are
/// being expanded further up the chain.
struct ResolveKey {
    scope: RScope,
    name: String,
}

/// The views of a resolution stack.
spec fn keys_view(stack: Seq<ResolveKey>) -> Seq<(RScope, Seq<char>)> {
    Seq::new(stack.len(), |i: int| (stack[i].scope, stack[i].name@))
}

/// The keys an ARG table declares, under one scope.
pub open spec fn table_keys(
    entries: Seq<(Seq<char>, Option<Seq<char>>)>,
    sc: RScope,
) -> Seq<(RScope, Seq<char>)> {
    Seq::new(entries.len(), |i: int| (sc, entries[i].0))
}

/// The keys the stages from `si` on declare.
pub open spec fn stage_keys(m: DockerfileModel, si: int) -> Seq<(RScope, Seq<char>)>
    decreases m.stages@.len() - si,
        when 0 <= si <= m.stages@.len()
{
    if si >= m.stages@.len() {
        Seq::empty()
    } else {
        table_keys(m.stages@[si].arg_defaults@, RScope::Stage(si as usize)) + stage_keys(
            m,
            si + 1,
        )
    }
}

/// Every (scope, name) pair a document declares a default under.
pub open spec fn all_keys(m: DockerfileModel) -> Seq<(RScope, Seq<char>)> {
    table_keys(m.global_args@, RScope::Global) + stage_keys(m, 0)
}

/// A resolution stack in good standing: distinct keys, all declared by the
/// document. The depth of the expansion is then bounded.
pub open spec fn stack_ok(m: DockerfileModel, stack: Seq<(RScope, Seq<char>)>) -> bool {
    stack.no_duplicates() && forall|i: int| 0 <= i < stack.len() ==> all_keys(m).contains(
        #[trigger] stack[i],
    )
}

/// How many more keys could still be pushed.
pub open spec fn free_of(m: DockerfileModel, stack: Seq<(RScope, Seq<char>)>) -> int {
    all_keys(m).len() - stack.len()
}

/// A good stack is never longer than the key list.
proof fn lemma_stack_bound(m: DockerfileModel, stack: Seq<(RScope, Seq<char>)>)
    requires
        stack_ok(m, stack),
    ensures
        stack.len() <= all_keys(m).len(),
{
    broadcast use vstd::seq_lib::seq_to_set_is_finite;
    broadcast use vstd::set::group_set_axioms;

    stack.unique_seq_to_set();
    assert(stack.to_set().subset_of(all_keys(m).to_set())) by {
        assert forall|x: (RScope, Seq<char>)| stack.to_set().contains(x) implies all_keys(
            m,
        ).to_set().contains(x) by {
            assert(stack.contains(x));
            let i = choose|i: int| 0 <= i < stack.len() && stack[i] == x;
            assert(all_keys(m).contains(x));
        }
    }
    vstd::set_lib::lemma_len_subset(stack.to_set(), all_keys(m).to_set());
    all_keys(m).lemma_cardinality_of_set();
}

/// A name a table declares appears among its keys.
proof fn lemma_declared_key(
    entries: Seq<(Seq<char>, Option<Seq<char>>)>,
    sc: RScope,
    name: Seq<char>,
)
    requires
        spec_arg_lookup(entries, name) is Some,
    ensures
        table_keys(entries, sc).contains((sc, name)),
    decreases entries.len(),
{
    if entries.len() > 0 {
        if entries[0].0 == name {
            assert(table_keys(entries, sc)[0] == (sc, name));
        } else {
            lemma_declared_key(entries.skip(1), sc, name);
            let tail = entries.skip(1);
            let k = choose|k: int|
                0 <= k < tail.len() && table_keys(tail, sc)[k] == (sc, name);
            assert(tail[k].0 == name);
            assert(entries[k + 1].0 == name);
            assert(table_keys(entries, sc)[k + 1] == (sc, name));
        }
    }
}

/// A key a stage declares appears in the whole key list.
proof fn lemma_stage_key(m: DockerfileModel, si: int, name: Seq<char>)
    requires
        0 <= si < m.stages@.len(),
        spec_arg_lookup(m.stages@[si].arg_defaults@, name) is Some,
    ensures
        all_keys(m).contains((RScope::Stage(si as usize), name)),
{
    lemma_declared_key(m.stages@[si].arg_defaults@, RScope::Stage(si as usize), name);
    lemma_stage_keys_contain(m, 0, si, name);
    let k = choose|k: int|
        0 <= k < stage_keys(m, 0).len() && stage_keys(m, 0)[k] == (
            RScope::Stage(si as usize),
            name,
        );
    let glen = table_keys(m.global_args@, RScope::Global).len();
    assert(all_keys(m)[glen + k] == (RScope::Stage(si as usize), name));
}

proof fn lemma_stage_keys_contain(m: DockerfileModel, lo: int, si: int, name: Seq<char>)
    requires
        0 <= lo <= si < m.stages@.len(),
        spec_arg_lookup(m.stages@[si].arg_defaults@, name) is Some,
    ensures
        stage_keys(m, lo).contains((RScope::Stage(si as usize), name)),
    decreases si - lo,
{
    let key = (RScope::Stage(si as usize), name);
    if lo == si {
        lemma_declared_key(m.stages@[si].arg_defaults@, RScope::Stage(si as usize), name);
        let here = table_keys(m.stages@[lo].arg_defaults@, RScope::Stage(lo as usize));
        let k = choose|k: int| 0 <= k < here.len() && here[k] == key;
        assert(stage_keys(m, lo)[k] == key);
    } else {
        lemma_stage_keys_contain(m, lo + 1, si, name);
        let rest = stage_keys(m, lo + 1);
        let k = choose|k: int| 0 <= k < rest.len() && rest[k] == key;
        let here = table_keys(m.stages@[lo].arg_defaults@, RScope::Stage(lo as usize));
        assert(stage_keys(m, lo)[here.len() + k] == key);
    }
}

/// A global key appears in the whole key list.
proof fn lemma_global_key(m: DockerfileModel, name: Seq<char>)
    requires
        spec_arg_lookup(m.global_args@, name) is Some,
    ensures
        all_keys(m).contains((RScope::Global, name)),
{
    lemma_declared_key(m.global_args@, RScope::Global, name);
    let here = table_keys(m.global_args@, RScope::Global);
    let k = choose|k: int| 0 <= k < here.len() && here[k] == (RScope::Global, name);
    assert(all_keys(m)[k] == (RScope::Global, name));
}

/// The stage-scoped non-null default of a name, when the scope is a stage
/// that declares one.
pub open spec fn stage_default_of(m: DockerfileModel, scope: RScope, name: Seq<char>) -> Option<
    Seq<char>,
> {
    match scope {
        RScope::Stage(i) => if i < m.stages@.len() {
            match spec_arg_lookup(m.stages@[i as int].arg_defaults@, name) {
                Some(Some(d)) => Some(d),
                _ => None,
            }
        } else {
            None
        },
        RScope::Global => None,
    }
}

/// The global non-null default of a name.
pub open spec fn global_default_of(m: DockerfileModel, name: Seq<char>) -> Option<Seq<char>> {
    match spec_arg_lookup(m.global_args@, name) {
        Some(Some(d)) => Some(d),
        _ => None,
    }
}

/// The cycle error text.
pub open spec fn cycle_msg(name: Seq<char>) -> Seq<char> {
    "cycle detected while resolving '"@ + name + "'"@
}

/// The strict-mode missing-variable error text.
pub open spec fn missing_msg(name: Seq<char>) -> Seq<char> {
    "missing variable '"@ + name + "'"@
}

/// The unsupported-interpolation error text.
pub open spec fn unsupported_msg(name: Seq<char>) -> Seq<char> {
    "unsupported interpolation form '${"@ + name + "}'"@
}

/// The first position at or after `i` holding `c`.
pub open spec fn spec_find_char(t: Seq<char>, i: int, c: char) -> Option<int>
    decreases t.len() - i,
        when 0 <= i <= t.len()
{
    if i >= t.len() {
        None
    } else if t[i] == c {
        Some(i)
    } else {
        spec_find_char(t, i + 1, c)
    }
}

pub proof fn lemma_find_char(t: Seq<char>, i: int, c: char)
    requires
        0 <= i <= t.len(),
    ensures
        spec_find_char(t, i, c) matches Some(j) ==> i <= j < t.len() && t[j] == c,
    decreases t.len() - i,
{
    if i < t.len() && t[i] != c {
        lemma_find_char(t, i + 1, c);
    }
}

/// The end of the variable-name run starting at `i`.
pub open spec fn spec_scan_var(t: Seq<char>, i: int) -> int
    decreases t.len() - i,
        when 0 <= i <= t.len()
{
    if i >= t.len() || !crate::text::spec_is_name_continue(t[i]) {
        i
    } else {
        spec_scan_var(t, i + 1)
    }
}

pub proof fn lemma_scan_var(t: Seq<char>, i: int)
    requires
        0 <= i <= t.len(),
    ensures
        i <= spec_scan_var(t, i) <= t.len(),
    decreases t.len() - i,
{
    if !(i >= t.len() || !crate::text::spec_is_name_continue(t[i])) {
        lemma_scan_var(t, i + 1);
    }
}

/// A well-formed variable name: `[A-Za-z_][A-Za-z0-9_]*`.
pub open spec fn valid_var_name(n: Seq<char>) -> bool {
    n.len() > 0 && crate::text::spec_is_name_start(n[0]) && forall|j: int|
        1 <= j < n.len() ==> crate::text::spec_is_name_continue(#[trigger] n[j])
}

/// Prepends a character to a successful resolution.
pub open spec fn prepend_char(
    c: char,
    r: Result<(Seq<char>, MetaModel), ErrorModel>,
) -> Result<(Seq<char>, MetaModel), ErrorModel> {
    match r {
        Ok((s, m)) => Ok((seq![c] + s, m)),
        Err(e) => Err(e),
    }
}

/// Prepends a resolved value to a successful resolution.
pub open spec fn prepend_seq(
    v: Seq<char>,
    r: Result<(Seq<char>, MetaModel), ErrorModel>,
) -> Result<(Seq<char>, MetaModel), ErrorModel> {
    match r {
        Ok((s, m)) => Ok((v + s, m)),
        Err(e) => Err(e),
    }
}

/// What one variable lookup yields: the override first, then a stage
/// default expanded in the same stage scope, then a global default
/// expanded in the global scope; `None` when nothing declares the name.
/// A key already on the stack fails with a cycle error.
pub open spec fn spec_resolve_var(
    m: DockerfileModel,
    ov: Seq<(Seq<char>, Seq<char>)>,
    strict: bool,
    scope: RScope,
    name: Seq<char>,
    meta: MetaModel,
    stack: Seq<(RScope, Seq<char>)>,
) -> Result<(Option<Seq<char>>, MetaModel), ErrorModel>
    decreases free_of(m, stack), 0int, 0int,
        when stack_ok(m, stack) via spec_resolve_var_dec
{
    match spec_ov_lookup(ov, name) {
        Some(v) => Ok((Some(v), meta)),
        None => match stage_default_of(m, scope, name) {
            Some(default) => {
                let key = (scope, name);
                if stack.contains(key) {
                    Err(ErrorModel::Eval { msg: cycle_msg(name) })
                } else {
                    match spec_resolve_text(m, ov, strict, scope, default, 0, meta, stack.push(
                        key,
                    )) {
                        Ok((out, m2)) => Ok((Some(out), m2)),
                        Err(e) => Err(e),
                    }
                }
            },
            None => match global_default_of(m, name) {
                Some(default) => {
                    let key = (RScope::Global, name);
                    if stack.contains(key) {
                        Err(ErrorModel::Eval { msg: cycle_msg(name) })
                    } else {
                        match spec_resolve_text(
                            m,
                            ov,
                            strict,
                            RScope::Global,
                            default,
                            0,
                            meta,
                            stack.push(key),
                        ) {
                            Ok((out, m2)) => Ok((Some(out), m2)),
                            Err(e) => Err(e),
                        }
                    }
                },
                None => Ok((None, meta)),
            },
        },
    }
}

#[via_fn]
proof fn spec_resolve_var_dec(
    m: DockerfileModel,
    ov: Seq<(Seq<char>, Seq<char>)>,
    strict: bool,
    scope: RScope,
    name: Seq<char>,
    meta: MetaModel,
    stack: Seq<(RScope, Seq<char>)>,
) {
    if spec_ov_lookup(ov, name) is None {
        match stage_default_of(m, scope, name) {
            Some(default) => {
                let key = (scope, name);
                if !stack.contains(key) {
                    match scope {
                        RScope::Stage(i) => {
                            lemma_stage_key(m, i as int, name);
                        },
                        RScope::Global => {},
                    }
                    lemma_push_key(m, stack, key);
                }
            },
            None => {
                if global_default_of(m, name) is Some {
                    let key = (RScope::Global, name);
                    if !stack.contains(key) {
                        lemma_global_key(m, name);
                        lemma_push_key(m, stack, key);
                    }
                }
            },
        }
    }
}

/// Pushing a declared, fresh key keeps the stack good and strictly grows
/// it within bounds.
proof fn lemma_push_key(
    m: DockerfileModel,
    stack: Seq<(RScope, Seq<char>)>,
    key: (RScope, Seq<char>),
)
    requires
        stack_ok(m, stack),
        !stack.contains(key),
        all_keys(m).contains(key),
    ensures
        stack_ok(m, stack.push(key)),
        stack.push(key).len() <= all_keys(m).len(),
        0 <= free_of(m, stack.push(key)) < free_of(m, stack),
{
    let p = stack.push(key);
    assert forall|i: int, j: int| 0 <= i < j < p.len() implies p[i] != p[j] by {
        if j == p.len() - 1 {
            assert(p[i] == stack[i]);
            if stack[i] == key {
                assert(stack.contains(key));
            }
        } else {
            assert(p[i] == stack[i] && p[j] == stack[j]);
        }
    }
    assert(p.no_duplicates());
    assert forall|i: int| 0 <= i < p.len() implies all_keys(m).contains(#[trigger] p[i]) by {
        if i < stack.len() {
            assert(p[i] == stack[i]);
        } else {
            assert(p[i] == key);
        }
    }
    lemma_stack_bound(m, p);
}

/// What interpolating a template from position `i` yields, scanning left
/// to right: plain characters pass through; `$NAME` and `${NAME}` expand
/// through `spec_resolve_var`; a `$` followed by neither a name start nor
/// `{` stays literal; an unresolved name is a fatal error under strict
/// mode and expands to nothing otherwise, recorded in `missing_vars`.
/// Every looked-up name is recorded in `used_vars` first.
pub open spec fn spec_resolve_text(
    m: DockerfileModel,
    ov: Seq<(Seq<char>, Seq<char>)>,
    strict: bool,
    scope: RScope,
    t: Seq<char>,
    i: int,
    meta: MetaModel,
    stack: Seq<(RScope, Seq<char>)>,
) -> Result<(Seq<char>, MetaModel), ErrorModel>
    decreases free_of(m, stack), t.len() - i, 1int,
        when stack_ok(m, stack) && 0 <= i <= t.len() via spec_resolve_text_dec
{
    if i >= t.len() {
        Ok((Seq::empty(), meta))
    } else if t[i] != '$' {
        prepend_char(t[i], spec_resolve_text(m, ov, strict, scope, t, i + 1, meta, stack))
    } else if i + 1 >= t.len() {
        prepend_char('$', spec_resolve_text(m, ov, strict, scope, t, i + 1, meta, stack))
    } else if t[i + 1] == '{' {
        match spec_find_char(t, i + 2, '}') {
            None => Err(
                ErrorModel::Eval { msg: "unterminated ${...} interpolation"@ },
            ),
            Some(j) => {
                let name = t.subrange(i + 2, j);
                if !valid_var_name(name) {
                    Err(ErrorModel::Eval { msg: unsupported_msg(name) })
                } else {
                    let meta1 = meta_use(meta, name);
                    match spec_resolve_var(m, ov, strict, scope, name, meta1, stack) {
                        Err(e) => Err(e),
                        Ok((Some(v), m2)) => prepend_seq(
                            v,
                            spec_resolve_text(m, ov, strict, scope, t, j + 1, m2, stack),
                        ),
                        Ok((None, m2)) => if strict {
                            Err(ErrorModel::Eval { msg: missing_msg(name) })
                        } else {
                            spec_resolve_text(
                                m,
                                ov,
                                strict,
                                scope,
                                t,
                                j + 1,
                                meta_miss(m2, name),
                                stack,
                            )
                        },
                    }
                }
            },
        }
    } else if crate::text::spec_is_name_start(t[i + 1]) {
        let e = spec_scan_var(t, i + 2);
        let name = t.subrange(i + 1, e);
        let meta1 = meta_use(meta, name);
        match spec_resolve_var(m, ov, strict, scope, name, meta1, stack) {
            Err(er) => Err(er),
            Ok((Some(v), m2)) => prepend_seq(
                v,
                spec_resolve_text(m, ov, strict, scope, t, e, m2, stack),
            ),
            Ok((None, m2)) => if strict {
                Err(ErrorModel::Eval { msg: missing_msg(name) })
            } else {
                spec_resolve_text(m, ov, strict, scope, t, e, meta_miss(m2, name), stack)
            },
        }
    } else {
        prepend_char('$', spec_resolve_text(m, ov, strict, scope, t, i + 1, meta, stack))
    }
}

#[via_fn]
proof fn spec_resolve_text_dec(
    m: DockerfileModel,
    ov: Seq<(Seq<char>, Seq<char>)>,
    strict: bool,
    scope: RScope,
    t: Seq<char>,
    i: int,
    meta: MetaModel,
    stack: Seq<(RScope, Seq<char>)>,
) {
    if i < t.len() {
        if t[i] == '$' && i + 1 < t.len() {
            if t[i + 1] == '{' {
                lemma_find_char(t, i + 2, '}');
            } else if crate::text::spec_is_name_start(t[i + 1]) {
                lemma_scan_var(t, i + 2);
            }
        }
    }
}


/// A failed lookup is always an evaluation error: cycles, strict-mode
/// missing names, and malformed interpolation forms; never NotFound. A
/// lookup that yields no value leaves the metadata untouched.
pub proof fn lemma_resolve_err_is_eval(
    m: DockerfileModel,
    ov: Seq<(Seq<char>, Seq<char>)>,
    strict: bool,
    scope: RScope,
    name: Seq<char>,
    meta: MetaModel,
    stack: Seq<(RScope, Seq<char>)>,
)
    requires
        stack_ok(m, stack),
    ensures
        spec_resolve_var(m, ov, strict, scope, name, meta, stack) matches Err(e) ==> e is Eval,
        spec_resolve_var(m, ov, strict, scope, name, meta, stack) matches Ok(p) ==> (
        p.0 is None ==> p.1 == meta),
    decreases free_of(m, stack), 0int, 0int,
{
    if spec_ov_lookup(ov, name) is None {
        match stage_default_of(m, scope, name) {
            Some(default) => {
                let key = (scope, name);
                if !stack.contains(key) {
                    match scope {
                        RScope::Stage(i) => {
                            lemma_stage_key(m, i as int, name);
                        },
                        RScope::Global => {},
                    }
                    lemma_push_key(m, stack, key);
                    lemma_rtext_err(m, ov, strict, scope, default, 0, meta, stack.push(key));
                }
            },
            None => {
                if global_default_of(m, name) is Some {
                    let key = (RScope::Global, name);
                    let default = global_default_of(m, name)->Some_0;
                    if !stack.contains(key) {
                        lemma_global_key(m, name);
                        lemma_push_key(m, stack, key);
                        lemma_rtext_err(
                            m,
                            ov,
                            strict,
                            RScope::Global,
                            default,
                            0,
                            meta,
                            stack.push(key),
                        );
                    }
                }
            },
        }
    }
}

/// A failed interpolation is always an evaluation error, never NotFound.
proof fn lemma_rtext_err(
    m: DockerfileModel,
    ov: Seq<(Seq<char>, Seq<char>)>,
    strict: bool,
    scope: RScope,
    t: Seq<char>,
    i: int,
    meta: MetaModel,
    stack: Seq<(RScope, Seq<char>)>,
)
    requires
        stack_ok(m, stack),
        0 <= i <= t.len(),
    ensures
        spec_resolve_text(m, ov, strict, scope, t, i, meta, stack) matches Err(e) ==> e is Eval,
    decreases free_of(m, stack), t.len() - i, 1int,
{
    if i < t.len() {
        if t[i] != '$' || i + 1 >= t.len() {
            lemma_rtext_err(m, ov, strict, scope, t, i + 1, meta, stack);
        } else if t[i + 1] == '{' {
            lemma_find_char(t, i + 2, '}');
            match spec_find_char(t, i + 2, '}') {
                None => {},
                Some(j) => {
                    let name = t.subrange(i + 2, j);
                    if valid_var_name(name) {
                        let meta1 = meta_use(meta, name);
                        lemma_resolve_err_is_eval(m, ov, strict, scope, name, meta1, stack);
                        match spec_resolve_var(m, ov, strict, scope, name, meta1, stack) {
                            Err(_) => {},
                            Ok((Some(v), m2)) => {
                                lemma_rtext_err(m, ov, strict, scope, t, j + 1, m2, stack);
                            },
                            Ok((None, m2)) => {
                                if !strict {
                                    lemma_rtext_err(
                                        m,
                                        ov,
                                        strict,
                                        scope,
                                        t,
                                        j + 1,
                                        meta_miss(m2, name),
                                        stack,
                                    );
                                }
                            },
                        }
                    }
                },
            }
        } else if crate::text::spec_is_name_start(t[i + 1]) {
            lemma_scan_var(t, i + 2);
            let e = spec_scan_var(t, i + 2);
            let name = t.subrange(i + 1, e);
            let meta1 = meta_use(meta, name);
            lemma_resolve_err_is_eval(m, ov, strict, scope, name, meta1, stack);
            match spec_resolve_var(m, ov, strict, scope, name, meta1, stack) {
                Err(_) => {},
                Ok((Some(v), m2)) => {
                    lemma_rtext_err(m, ov, strict, scope, t, e, m2, stack);
                },
                Ok((None, m2)) => {
                    if !strict {
                        lemma_rtext_err(m, ov, strict, scope, t, e, meta_miss(m2, name), stack);
                    }
                },
            }
        } else {
            lemma_rtext_err(m, ov, strict, scope, t, i + 1, meta, stack);
        }
    }
}


/// A successful lookup never touches the recorded missing paths or the
/// scope tag: the resolver only adds to the looked-up and missing name
/// sets.
pub proof fn lemma_resolve_var_keeps_paths(
    m: DockerfileModel,
    ov: Seq<(Seq<char>, Seq<char>)>,
    strict: bool,
    scope: RScope,
    name: Seq<char>,
    meta: MetaModel,
    stack: Seq<(RScope, Seq<char>)>,
)
    requires
        stack_ok(m, stack),
    ensures
        spec_resolve_var(m, ov, strict, scope, name, meta, stack) matches Ok(p) ==> (
        p.1.missing_paths == meta.missing_paths && p.1.scope == meta.scope),
    decreases free_of(m, stack), 0int, 0int,
{
    if spec_ov_lookup(ov, name) is None {
        match stage_default_of(m, scope, name) {
            Some(default) => {
                let key = (scope, name);
                if !stack.contains(key) {
                    match scope {
                        RScope::Stage(i) => {
                            lemma_stage_key(m, i as int, name);
                        },
                        RScope::Global => {},
                    }
                    lemma_push_key(m, stack, key);
                    lemma_resolve_text_keeps_paths(
                        m,
                        ov,
                        strict,
                        scope,
                        default,
                        0,
                        meta,
                        stack.push(key),
                    );
                }
            },
            None => {
                if global_default_of(m, name) is Some {
                    let key = (RScope::Global, name);
                    let default = global_default_of(m, name)->Some_0;
                    if !stack.contains(key) {
                        lemma_global_key(m, name);
                        lemma_push_key(m, stack, key);
                        lemma_resolve_text_keeps_paths(
                            m,
                            ov,
                            strict,
                            RScope::Global,
                            default,
                            0,
                            meta,
                            stack.push(key),
                        );
                    }
                }
            },
        }
    }
}

/// A successful interpolation never touches the recorded missing paths or
/// the scope tag.
pub proof fn lemma_resolve_text_keeps_paths(
    m: DockerfileModel,
    ov: Seq<(Seq<char>, Seq<char>)>,
    strict: bool,
    scope: RScope,
    t: Seq<char>,
    i: int,
    meta: MetaModel,
    stack: Seq<(RScope, Seq<char>)>,
)
    requires
        stack_ok(m, stack),
        0 <= i <= t.len(),
    ensures
        spec_resolve_text(m, ov, strict, scope, t, i, meta, stack) matches Ok(p) ==> (
        p.1.missing_paths == meta.missing_paths && p.1.scope == meta.scope),
    decreases free_of(m, stack), t.len() - i, 1int,
{
    if i < t.len() {
        if t[i] != '$' || i + 1 >= t.len() {
            lemma_resolve_text_keeps_paths(m, ov, strict, scope, t, i + 1, meta, stack);
        } else if t[i + 1] == '{' {
            lemma_find_char(t, i + 2, '}');
            match spec_find_char(t, i + 2, '}') {
                None => {},
                Some(j) => {
                    let name = t.subrange(i + 2, j);
                    if valid_var_name(name) {
                        let meta1 = meta_use(meta, name);
                        lemma_resolve_var_keeps_paths(m, ov, strict, scope, name, meta1, stack);
                        match spec_resolve_var(m, ov, strict, scope, name, meta1, stack) {
                            Err(_) => {},
                            Ok((Some(v), m2)) => {
                                lemma_resolve_text_keeps_paths(
                                    m,
                                    ov,
                                    strict,
                                    scope,
                                    t,
                                    j + 1,
                                    m2,
                                    stack,
                                );
                            },
                            Ok((None, m2)) => {
                                if !strict {
                                    lemma_resolve_text_keeps_paths(
                                        m,
                                        ov,
                                        strict,
                                        scope,
                                        t,
                                        j + 1,
                                        meta_miss(m2, name),
                                        stack,
                                    );
                                }
                            },
                        }
                    }
                },
            }
        } else if crate::text::spec_is_name_start(t[i + 1]) {
            lemma_scan_var(t, i + 2);
            let e = spec_scan_var(t, i + 2);
            let name = t.subrange(i + 1, e);
            let meta1 = meta_use(meta, name);
            lemma_resolve_var_keeps_paths(m, ov, strict, scope, name, meta1, stack);
            match spec_resolve_var(m, ov, strict, scope, name, meta1, stack) {
                Err(_) => {},
                Ok((Some(v), m2)) => {
                    lemma_resolve_text_keeps_paths(m, ov, strict, scope, t, e, m2, stack);
                },
                Ok((None, m2)) => {
                    if !strict {
                        lemma_resolve_text_keeps_paths(
                            m,
                            ov,
                            strict,
                            scope,
                            t,
                            e,
                            meta_miss(m2, name),
                            stack,
                        );
                    }
                },
            }
        } else {
            lemma_resolve_text_keeps_paths(m, ov, strict, scope, t, i + 1, meta, stack);
        }
    }
}

/// Evaluating one stage path never touches the recorded missing paths or
/// the scope tag: only the wildcard mapping itself records paths.
pub proof fn lemma_stage_path_keeps_paths(
    ctx: Ctx,
    si: int,
    segs: Seq<SegModel>,
    i: int,
    path: Seq<char>,
    meta: MetaModel,
)
    ensures
        spec_eval_stage_path(ctx, si, segs, i, path, meta) matches Ok(p) ==> (
        p.1.missing_paths == meta.missing_paths && p.1.scope == meta.scope),
{
    assert(stack_ok(ctx.m, Seq::<(RScope, Seq<char>)>::empty()));
    if 0 <= si < ctx.m.stages@.len() {
        let st = ctx.m.stages@[si];
        lemma_resolve_var_keeps_paths(
            ctx.m,
            ctx.ov,
            ctx.strict,
            RScope::Stage(si as usize),
            if i < segs.len() && segs[i] is Ident && i + 1 < segs.len() {
                segs[i + 1]->Ident_0
            } else {
                Seq::empty()
            },
            meta,
            Seq::empty(),
        );
        match st.parent {
            Parent::Image(raw) => {
                lemma_resolve_text_keeps_paths(
                    ctx.m,
                    ctx.ov,
                    ctx.strict,
                    RScope::Global,
                    raw@,
                    0,
                    meta,
                    Seq::empty(),
                );
            },
            _ => {},
        }
        if i < segs.len() {
            match segs[i] {
                SegModel::Ident(f) => {
                    if f == "ARG"@ && i + 1 < segs.len() {
                        match segs[i + 1] {
                            SegModel::Ident(name) => {
                                lemma_resolve_var_keeps_paths(
                                    ctx.m,
                                    ctx.ov,
                                    ctx.strict,
                                    RScope::Stage(si as usize),
                                    name,
                                    meta,
                                    Seq::empty(),
                                );
                            },
                            _ => {},
                        }
                    }
                },
                SegModel::Function { ident, args } => {
                    if args.len() == 1 {
                        match args[0] {
                            ArgModel::String(input) => {
                                lemma_resolve_text_keeps_paths(
                                    ctx.m,
                                    ctx.ov,
                                    ctx.strict,
                                    RScope::Stage(si as usize),
                                    input,
                                    0,
                                    meta,
                                    Seq::empty(),
                                );
                            },
                            _ => {},
                        }
                    }
                },
                _ => {},
            }
        }
    }
}

fn build_msg(prefix: &str, name: &str, suffix: &str) -> (r: String)
    ensures
        r@ == prefix@ + name@ + suffix@,
{
    let mut out: Vec<char> = Vec::new();
    append_str(&mut out, prefix);
    append_str(&mut out, name);
    append_str(&mut out, suffix);
    chars_to_string(&out)
}

fn stack_contains(stack: &Vec<ResolveKey>, scope: RScope, name: &str) -> (r: bool)
    ensures
        r == keys_view(stack@).contains((scope, name@)),
{
    let mut i: usize = 0;
    loop
        invariant
            i <= stack@.len(),
            forall|j: int| 0 <= j < i ==> #[trigger] keys_view(stack@)[j] != (scope, name@),
        decreases stack@.len() - i,
    {
        if i >= stack.len() {
            proof {
                if keys_view(stack@).contains((scope, name@)) {
                    let j = choose|j: int|
                        0 <= j < keys_view(stack@).len() && keys_view(stack@)[j] == (
                            scope,
                            name@,
                        );
                    assert(keys_view(stack@)[j] != (scope, name@));
                }
            }
            return false;
        }
        proof {
            assert(keys_view(stack@)[i as int] == (stack@[i as int].scope, stack@[
                i as int
            ].name@));
        }
        if stack[i].scope == scope && str_eq(stack[i].name.as_str(), name) {
            proof {
                assert(keys_view(stack@)[i as int] == (scope, name@));
            }
            return true;
        }
        i += 1;
    }
}

fn find_char_from(t: &Vec<char>, i: usize, c: char) -> (r: Option<usize>)
    requires
        i <= t@.len(),
    ensures
        match r {
            Some(j) => spec_find_char(t@, i as int, c) == Some(j as int) && i <= j
                < t@.len(),
            None => spec_find_char(t@, i as int, c) is None,
        },
{
    let mut j = i;
    loop
        invariant
            i <= j <= t@.len(),
            spec_find_char(t@, i as int, c) == spec_find_char(t@, j as int, c),
        decreases t@.len() - j,
    {
        if j >= t.len() {
            return None;
        }
        if t[j] == c {
            return Some(j);
        }
        j += 1;
    }
}

fn scan_var_end(t: &Vec<char>, i: usize) -> (r: usize)
    requires
        i <= t@.len(),
    ensures
        r == spec_scan_var(t@, i as int),
        i <= r <= t@.len(),
{
    let mut j = i;
    loop
        invariant
            i <= j <= t@.len(),
            spec_scan_var(t@, i as int) == spec_scan_var(t@, j as int),
        decreases t@.len() - j,
    {
        if j >= t.len() {
            return j;
        }
        if !crate::text::is_name_continue(t[j]) {
            return j;
        }
        j += 1;
    }
}

fn valid_name_range(t: &Vec<char>, a: usize, b: usize) -> (r: bool)
    requires
        a <= b <= t@.len(),
    ensures
        r == valid_var_name(t@.subrange(a as int, b as int)),
{
    let ghost name = t@.subrange(a as int, b as int);
    if a >= b {
        return false;
    }
    if !crate::text::is_name_start(t[a]) {
        proof {
            assert(name[0] == t@[a as int]);
        }
        return false;
    }
    let mut j = a + 1;
    loop
        invariant
            a < j <= b <= t@.len(),
            name == t@.subrange(a as int, b as int),
            crate::text::spec_is_name_start(name[0]),
            forall|k: int| 1 <= k < j - a ==> crate::text::spec_is_name_continue(
                #[trigger] name[k],
            ),
        decreases b - j,
    {
        if j >= b {
            return true;
        }
        proof {
            assert(name[j - a] == t@[j as int]);
        }
        if !crate::text::is_name_continue(t[j]) {
            return false;
        }
        j += 1;
    }
}

/// Looks one name up: override, then stage default, then global default,
/// expanding the chosen default recursively with cycle detection.
fn resolve_var(
    m: &DockerfileModel,
    ov: &Overrides,
    strict: bool,
    scope: RScope,
    name: &str,
    meta: &mut EvalMeta,
    stack: &mut Vec<ResolveKey>,
) -> (r: Result<Option<String>, Error>)
    requires
        stack_ok(*m, keys_view(old(stack)@)),
    ensures
        match r {
            Ok(v) => {
                &&& keys_view(final(stack)@) == keys_view(old(stack)@)
                &&& spec_resolve_var(
                    *m,
                    ov@,
                    strict,
                    scope,
                    name@,
                    old(meta)@,
                    keys_view(old(stack)@),
                ) == Ok::<(Option<Seq<char>>, MetaModel), ErrorModel>(
                    (opt_str_view(v), final(meta)@),
                )
            },
            Err(e) => spec_resolve_var(
                *m,
                ov@,
                strict,
                scope,
                name@,
                old(meta)@,
                keys_view(old(stack)@),
            ) == Err::<(Option<Seq<char>>, MetaModel), ErrorModel>(e@),
        },
    decreases free_of(*m, keys_view(stack@)), 0int, 0int,
{
    match ov.get(name) {
        Some(v) => {
            return Ok(Some(v));
        },
        None => {},
    }
    let mut stage_default: Option<String> = None;
    match scope {
        RScope::Stage(i) => {
            if i < m.stages.len() {
                match m.stages[i].arg_defaults.get(name) {
                    Some(Some(d)) => {
                        stage_default = Some(d);
                    },
                    _ => {},
                }
            }
        },
        RScope::Global => {},
    }
    proof {
        assert(match stage_default {
            Some(d) => stage_default_of(*m, scope, name@) == Some(d@),
            None => stage_default_of(*m, scope, name@) is None,
        });
    }
    match stage_default {
        Some(default) => {
            if stack_contains(stack, scope, name) {
                return Err(
                    Error::Eval {
                        msg: build_msg("cycle detected while resolving '", name, "'"),
                    },
                );
            }
            let ghost keys0 = keys_view(stack@);
            proof {
                match scope {
                    RScope::Stage(i) => {
                        lemma_stage_key(*m, i as int, name@);
                    },
                    RScope::Global => {},
                }
                lemma_push_key(*m, keys0, (scope, name@));
            }
            stack.push(ResolveKey { scope, name: name.to_owned() });
            proof {
                assert(keys_view(stack@) =~= keys0.push((scope, name@)));
            }
            let t = str_to_chars(default.as_str());
            let out = match resolve_text(m, ov, strict, scope, &t, 0, meta, stack) {
                Ok(o) => o,
                Err(e) => {
                    return Err(e);
                },
            };
            let ghost prepop = stack@;
            stack.pop();
            proof {
                assert forall|j: int| 0 <= j < keys0.len() implies keys_view(stack@)[j]
                    == keys0[j] by {
                    assert(stack@[j] == prepop[j]);
                    assert(keys_view(prepop)[j] == keys0.push((scope, name@))[j]);
                }
                assert(keys_view(stack@) =~= keys0);
            }
            Ok(Some(chars_to_string(&out)))
        },
        None => {
            let mut global_default: Option<String> = None;
            match m.global_args.get(name) {
                Some(Some(d)) => {
                    global_default = Some(d);
                },
                _ => {},
            }
            proof {
                assert(match global_default {
                    Some(d) => global_default_of(*m, name@) == Some(d@),
                    None => global_default_of(*m, name@) is None,
                });
            }
            match global_default {
                Some(default) => {
                    if stack_contains(stack, RScope::Global, name) {
                        return Err(
                            Error::Eval {
                                msg: build_msg("cycle detected while resolving '", name, "'"),
                            },
                        );
                    }
                    let ghost keys0 = keys_view(stack@);
                    proof {
                        lemma_global_key(*m, name@);
                        lemma_push_key(*m, keys0, (RScope::Global, name@));
                    }
                    stack.push(ResolveKey { scope: RScope::Global, name: name.to_owned() });
                    proof {
                        assert(keys_view(stack@) =~= keys0.push((RScope::Global, name@)));
                    }
                    let t = str_to_chars(default.as_str());
                    let out = match resolve_text(m, ov, strict, RScope::Global, &t, 0, meta, stack)
                        {
                        Ok(o) => o,
                        Err(e) => {
                            return Err(e);
                        },
                    };
                    let ghost prepop = stack@;
                    stack.pop();
                    proof {
                        assert forall|j: int| 0 <= j < keys0.len() implies keys_view(stack@)[j]
                            == keys0[j] by {
                            assert(stack@[j] == prepop[j]);
                            assert(keys_view(prepop)[j] == keys0.push((RScope::Global, name@))[j]);
                        }
                        assert(keys_view(stack@) =~= keys0);
                    }
                    Ok(Some(chars_to_string(&out)))
                },
                None => Ok(None),
            }
        },
    }
}

/// Interpolates a template from position `i` on, as `spec_resolve_text`
/// gives it.
fn resolve_text(
    m: &DockerfileModel,
    ov: &Overrides,
    strict: bool,
    scope: RScope,
    t: &Vec<char>,
    i: usize,
    meta: &mut EvalMeta,
    stack: &mut Vec<ResolveKey>,
) -> (r: Result<Vec<char>, Error>)
    requires
        i <= t@.len(),
        stack_ok(*m, keys_view(old(stack)@)),
    ensures
        match r {
            Ok(out) => {
                &&& keys_view(final(stack)@) == keys_view(old(stack)@)
                &&& spec_resolve_text(
                    *m,
                    ov@,
                    strict,
                    scope,
                    t@,
                    i as int,
                    old(meta)@,
                    keys_view(old(stack)@),
                ) == Ok::<(Seq<char>, MetaModel), ErrorModel>((out@, final(meta)@))
            },
            Err(e) => spec_resolve_text(
                *m,
                ov@,
                strict,
                scope,
                t@,
                i as int,
                old(meta)@,
                keys_view(old(stack)@),
            ) == Err::<(Seq<char>, MetaModel), ErrorModel>(e@),
        },
    decreases free_of(*m, keys_view(stack@)), t@.len() - i, 1int,
{
    if i >= t.len() {
        let out: Vec<char> = Vec::new();
        proof {
            assert(out@ =~= Seq::<char>::empty());
        }
        return Ok(out);
    }
    let c = t[i];
    if c != '$' || i + 1 >= t.len() {
        let rest = match resolve_text(m, ov, strict, scope, t, i + 1, meta, stack) {
            Ok(o) => o,
            Err(e) => {
                return Err(e);
            },
        };
        let mut out: Vec<char> = Vec::new();
        out.push(c);
        append_chars(&mut out, &rest);
        proof {
            assert(out@ =~= seq![c] + rest@);
        }
        return Ok(out);
    }
    let next = t[i + 1];
    if next == '{' {
        let close = find_char_from(t, i + 2, '}');
        let j = match close {
            Some(j) => j,
            None => {
                let mut msg: Vec<char> = Vec::new();
                append_str(&mut msg, "unterminated ${...} interpolation");
                proof {
                    assert(msg@ =~= "unterminated ${...} interpolation"@);
                }
                return Err(Error::Eval { msg: chars_to_string(&msg) });
            },
        };
        proof {
            lemma_find_char(t@, i + 2, '}');
        }
        let name = crate::text::range_to_string(t, i + 2, j);
        if !valid_name_range(t, i + 2, j) {
            return Err(
                Error::Eval {
                    msg: build_msg("unsupported interpolation form '${", name.as_str(), "}'"),
                },
            );
        }
        let ghost meta0 = meta@;
        sorted_insert_str(&mut meta.used_vars, name.clone());
        proof {
            assert(meta@ == meta_use(meta0, name@));
        }
        let looked = match resolve_var(m, ov, strict, scope, name.as_str(), meta, stack) {
            Ok(v) => v,
            Err(e) => {
                return Err(e);
            },
        };
        match looked {
            Some(v) => {
                let rest = match resolve_text(m, ov, strict, scope, t, j + 1, meta, stack) {
                    Ok(o) => o,
                    Err(e) => {
                        return Err(e);
                    },
                };
                let mut out: Vec<char> = Vec::new();
                append_str(&mut out, v.as_str());
                append_chars(&mut out, &rest);
                proof {
                    assert(out@ =~= v@ + rest@);
                }
                Ok(out)
            },
            None => {
                if strict {
                    return Err(
                        Error::Eval { msg: build_msg("missing variable '", name.as_str(), "'") },
                    );
                }
                let ghost meta1 = meta@;
                sorted_insert_str(&mut meta.missing_vars, name.clone());
                proof {
                    assert(meta@ == meta_miss(meta1, name@));
                }
                resolve_text(m, ov, strict, scope, t, j + 1, meta, stack)
            },
        }
    } else if crate::text::is_name_start(next) {
        let e = scan_var_end(t, i + 2);
        let name = crate::text::range_to_string(t, i + 1, e);
        let ghost meta0 = meta@;
        sorted_insert_str(&mut meta.used_vars, name.clone());
        proof {
            assert(meta@ == meta_use(meta0, name@));
        }
        let looked = match resolve_var(m, ov, strict, scope, name.as_str(), meta, stack) {
            Ok(v) => v,
            Err(e) => {
                return Err(e);
            },
        };
        match looked {
            Some(v) => {
                let rest = match resolve_text(m, ov, strict, scope, t, e, meta, stack) {
                    Ok(o) => o,
                    Err(er) => {
                        return Err(er);
                    },
                };
                let mut out: Vec<char> = Vec::new();
                append_str(&mut out, v.as_str());
                append_chars(&mut out, &rest);
                proof {
                    assert(out@ =~= v@ + rest@);
                }
                Ok(out)
            },
            None => {
                if strict {
                    return Err(
                        Error::Eval { msg: build_msg("missing variable '", name.as_str(), "'") },
                    );
                }
                let ghost meta1 = meta@;
                sorted_insert_str(&mut meta.missing_vars, name.clone());
                proof {
                    assert(meta@ == meta_miss(meta1, name@));
                }
                resolve_text(m, ov, strict, scope, t, e, meta, stack)
            },
        }
    } else {
        let rest = match resolve_text(m, ov, strict, scope, t, i + 1, meta, stack) {
            Ok(o) => o,
            Err(e) => {
                return Err(e);
            },
        };
        let mut out: Vec<char> = Vec::new();
        out.push('$');
        append_chars(&mut out, &rest);
        proof {
            assert(out@ =~= seq!['$'] + rest@);
        }
        Ok(out)
    }
}

/// The value of a machine-width count or position after the cast to a
/// 64-bit signed number it goes through.
pub open spec fn to_i64(n: int) -> int {
    n as i64 as int
}

/// The spec-level context of one evaluation: the document, the overrides,
/// and the strictness flag.
pub struct Ctx {
    pub m: DockerfileModel,
    pub ov: Seq<(Seq<char>, Seq<char>)>,
    pub strict: bool,
}

/// Top-level interpolation: a fresh resolution stack.
pub open spec fn rt(ctx: Ctx, scope: RScope, t: Seq<char>, meta: MetaModel) -> Result<
    (Seq<char>, MetaModel),
    ErrorModel,
> {
    spec_resolve_text(ctx.m, ctx.ov, ctx.strict, scope, t, 0, meta, Seq::empty())
}

/// Top-level variable lookup: a fresh resolution stack.
pub open spec fn rv(ctx: Ctx, scope: RScope, name: Seq<char>, meta: MetaModel) -> Result<
    (Option<Seq<char>>, MetaModel),
    ErrorModel,
> {
    spec_resolve_var(ctx.m, ctx.ov, ctx.strict, scope, name, meta, Seq::empty())
}

/// The parent token as written: the image reference, `scratch`, or the
/// referenced stage name.
pub open spec fn parent_raw_of(p: Parent) -> Seq<char> {
    match p {
        Parent::Image(raw) => raw@,
        Parent::Scratch => "scratch"@,
        Parent::StageRef(target) => target@,
    }
}

/// The parent kind label.
pub open spec fn parent_kind_of(p: Parent) -> Seq<char> {
    match p {
        Parent::Image(_) => "image"@,
        Parent::Scratch => "scratch"@,
        Parent::StageRef(_) => "stage"@,
    }
}

/// The fully resolved parent: image references are interpolated in the
/// global scope; `scratch` and stage references pass through.
pub open spec fn spec_resolve_parent(ctx: Ctx, st: Stage, meta: MetaModel) -> Result<
    (Seq<char>, MetaModel),
    ErrorModel,
> {
    match st.parent {
        Parent::Image(raw) => rt(ctx, RScope::Global, raw@, meta),
        Parent::Scratch => Ok(("scratch"@, meta)),
        Parent::StageRef(target) => Ok((target@, meta)),
    }
}

/// An optional default as a value: the text, or null.
pub open spec fn opt_value(o: Option<Seq<char>>) -> ValueModel {
    match o {
        Some(s) => ValueModel::String(s),
        None => ValueModel::Null,
    }
}

/// The object of every table entry mapped to its default-or-null.
pub open spec fn spec_arg_object(
    entries: Seq<(Seq<char>, Option<Seq<char>>)>,
    i: int,
    acc: Seq<(Seq<char>, ValueModel)>,
) -> Seq<(Seq<char>, ValueModel)>
    decreases entries.len() - i,
        when 0 <= i <= entries.len()
{
    if i >= entries.len() {
        acc
    } else {
        spec_arg_object(entries, i + 1, spec_obj_insert(acc, entries[i].0, opt_value(entries[i].1)))
    }
}

/// The `{start, end}` line-span object.
pub open spec fn spec_span_obj(start: int, end: int) -> Seq<(Seq<char>, ValueModel)> {
    spec_obj_insert(
        spec_obj_insert(Seq::empty(), "start"@, ValueModel::Number(to_i64(start))),
        "end"@,
        ValueModel::Number(to_i64(end)),
    )
}

/// The stage summary object.
pub open spec fn spec_stage_object(ctx: Ctx, index: int, st: Stage, meta: MetaModel) -> Result<
    (ValueModel, MetaModel),
    ErrorModel,
> {
    match spec_resolve_parent(ctx, st, meta) {
        Err(e) => Err(e),
        Ok((resolved, m2)) => {
            let parent0 = spec_obj_insert(Seq::empty(), "raw"@, ValueModel::String(parent_raw_of(st.parent)));
            let parent1 = spec_obj_insert(parent0, "resolved"@, ValueModel::String(resolved));
            let parent2 = spec_obj_insert(parent1, "kind"@, ValueModel::String(parent_kind_of(st.parent)));
            let parent3 = match st.parent {
                Parent::StageRef(target) => spec_obj_insert(parent2, "stage"@, ValueModel::String(target@)),
                _ => parent2,
            };
            let s0 = spec_obj_insert(Seq::empty(), "index"@, ValueModel::Number(to_i64(index)));
            let s1 = spec_obj_insert(s0, "name"@, opt_value(opt_str_view(st.name)));
            let s2 = spec_obj_insert(s1, "parent"@, ValueModel::Object(parent3));
            let s3 = spec_obj_insert(s2, "arg"@, ValueModel::Object(spec_arg_object(st.arg_defaults@, 0, Seq::empty())));
            let imeta = spec_obj_insert(
                Seq::empty(),
                "count"@,
                ValueModel::Number(to_i64(st.instructions@.len() as int)),
            );
            let s4 = spec_obj_insert(s3, "instructions"@, ValueModel::Object(imeta));
            Ok((ValueModel::Object(s4), m2))
        },
    }
}

/// One flattened RUN instruction: its position among all RUN instructions,
/// its owning stage, and the instruction text and lines.
pub struct REntry {
    pub run_index: int,
    pub stage_index: int,
    pub stage_name: Option<Seq<char>>,
    pub raw: Seq<char>,
    pub start_line: int,
    pub end_line: int,
}

/// Appends the RUN instructions of one stage, numbering on from `acc`.
pub open spec fn collect_stage_runs(st: Stage, si: int, acc: Seq<REntry>, j: int) -> Seq<REntry>
    decreases st.instructions@.len() - j,
        when 0 <= j <= st.instructions@.len()
{
    if j >= st.instructions@.len() {
        acc
    } else {
        let ins = st.instructions@[j];
        if ins.keyword@ == "RUN"@ {
            collect_stage_runs(
                st,
                si,
                acc.push(
                    REntry {
                        run_index: acc.len() as int,
                        stage_index: si,
                        stage_name: opt_str_view(st.name),
                        raw: ins.raw@,
                        start_line: ins.start_line as int,
                        end_line: ins.end_line as int,
                    },
                ),
                j + 1,
            )
        } else {
            collect_stage_runs(st, si, acc, j + 1)
        }
    }
}

/// Appends the RUN instructions of the stages from `si` on.
pub open spec fn collect_runs(m: DockerfileModel, si: int, acc: Seq<REntry>) -> Seq<REntry>
    decreases m.stages@.len() - si,
        when 0 <= si <= m.stages@.len()
{
    if si >= m.stages@.len() {
        acc
    } else {
        collect_runs(m, si + 1, collect_stage_runs(m.stages@[si], si, acc, 0))
    }
}

/// Every RUN instruction of the document, in document order.
pub open spec fn run_entries(m: DockerfileModel) -> Seq<REntry> {
    collect_runs(m, 0, Seq::empty())
}

/// The rendered form of one function argument inside a path string.
pub open spec fn spec_arg_string(a: ArgModel) -> Seq<char> {
    match a {
        ArgModel::String(s) => seq!['"'] + s + seq!['"'],
        ArgModel::Ident(s) => s,
        ArgModel::Number(n) => spec_dec_int(n),
    }
}

/// The comma-joined rendering of the first `k` arguments.
pub open spec fn spec_args_prefix(args: Seq<ArgModel>, k: int) -> Seq<char>
    decreases k,
        when 0 <= k <= args.len()
{
    if k <= 0 {
        Seq::empty()
    } else if k == 1 {
        spec_arg_string(args[0])
    } else {
        spec_args_prefix(args, k - 1) + ", "@ + spec_arg_string(args[k - 1])
    }
}

/// The rendered form of one segment inside a path string.
pub open spec fn spec_seg_string(seg: SegModel) -> Seq<char> {
    match seg {
        SegModel::Ident(s) => s,
        SegModel::Indexed { ident, index } => match index {
            IndexModel::Position(n) => ident + seq!['['] + spec_dec_int(n) + seq![']'],
            IndexModel::Wildcard => ident + "[*]"@,
            IndexModel::Key(k) => ident + "[\""@ + k + "\"]"@,
        },
        SegModel::Function { ident, args } => ident + seq!['('] + spec_args_prefix(
            args,
            args.len() as int,
        ) + seq![')'],
    }
}

/// The `.SEG.SEG...` suffix of a path from segment `i` on.
pub open spec fn spec_path_suffix(segs: Seq<SegModel>, i: int) -> Seq<char>
    decreases segs.len() - i,
        when 0 <= i <= segs.len()
{
    if i >= segs.len() {
        Seq::empty()
    } else {
        seq!['.'] + spec_seg_string(segs[i]) + spec_path_suffix(segs, i + 1)
    }
}

/// The fully-qualified per-element path of one RUN entry.
pub open spec fn spec_run_path(run_index: int, segs: Seq<SegModel>, i: int) -> Seq<char> {
    "RUN["@ + spec_dec_int(run_index) + "]"@ + spec_path_suffix(segs, i)
}

/// The fully-qualified per-element path of one stage.
pub open spec fn spec_stage_path(stage_index: int, segs: Seq<SegModel>, i: int) -> Seq<char> {
    "STAGE["@ + spec_dec_int(stage_index) + "]"@ + spec_path_suffix(segs, i)
}

/// The RUN text with a leading case-insensitive `RUN` keyword and the
/// whitespace around it stripped.
pub open spec fn spec_run_command(raw: Seq<char>) -> Seq<char> {
    let j0 = crate::query::spec_skip_ws(raw, 0);
    if j0 + 4 <= raw.len() && (raw[j0] == 'r' || raw[j0] == 'R') && (raw[j0 + 1] == 'u'
        || raw[j0 + 1] == 'U') && (raw[j0 + 2] == 'n' || raw[j0 + 2] == 'N')
        && crate::text::spec_is_space(raw[j0 + 3]) {
        raw.skip(crate::query::spec_skip_ws(raw, j0 + 3))
    } else {
        raw.skip(j0)
    }
}

/// What a per-entry field yields for one RUN entry.
pub open spec fn spec_run_entry_field(
    e: REntry,
    segs: Seq<SegModel>,
    i: int,
    path: Seq<char>,
) -> Result<ValueModel, ErrorModel> {
    if i >= segs.len() {
        Ok(ValueModel::String(e.raw))
    } else if segs.len() - i != 1 {
        Err(ErrorModel::NotFound { path })
    } else {
        match segs[i] {
            SegModel::Ident(f) => if f == "RAW"@ {
                Ok(ValueModel::String(e.raw))
            } else if f == "COMMAND"@ {
                Ok(ValueModel::String(spec_run_command(e.raw)))
            } else if f == "KEYWORD"@ {
                Ok(ValueModel::String("RUN"@))
            } else if f == "INDEX"@ {
                Ok(ValueModel::Number(to_i64(e.run_index)))
            } else if f == "STAGE"@ {
                Ok(ValueModel::Number(to_i64(e.stage_index)))
            } else if f == "STAGE_NAME"@ {
                Ok(opt_value(e.stage_name))
            } else if f == "SPAN"@ {
                Ok(ValueModel::Object(spec_span_obj(e.start_line, e.end_line)))
            } else {
                Err(ErrorModel::NotFound { path })
            },
            _ => Err(ErrorModel::NotFound { path }),
        }
    }
}

/// The raw text of each entry, as an array.
pub open spec fn raws_of(entries: Seq<REntry>) -> ValueModel {
    ValueModel::Array(Seq::new(entries.len(), |k: int| ValueModel::String(entries[k].raw)))
}

/// The entries whose raw text holds the needle, in order.
pub open spec fn grep_filter(entries: Seq<REntry>, needle: Seq<char>) -> Seq<REntry>
    decreases entries.len(),
{
    if entries.len() == 0 {
        Seq::empty()
    } else if chars_contains(entries[0].raw, needle) {
        seq![entries[0]] + grep_filter(entries.skip(1), needle)
    } else {
        grep_filter(entries.skip(1), needle)
    }
}

/// Whether any entry's raw text holds the needle.
pub open spec fn any_contains(entries: Seq<REntry>, needle: Seq<char>) -> bool
    decreases entries.len(),
{
    if entries.len() == 0 {
        false
    } else {
        chars_contains(entries[0].raw, needle) || any_contains(entries.skip(1), needle)
    }
}

/// The single-string-argument error text of a collection function.
pub open spec fn arity_msg(name: Seq<char>) -> Seq<char> {
    name + " requires exactly one string argument"@
}

/// The single string argument of a collection function, or the arity error.
pub open spec fn spec_single_string_arg(args: Seq<ArgModel>, name: Seq<char>) -> Result<
    Seq<char>,
    ErrorModel,
> {
    if args.len() == 1 {
        match args[0] {
            ArgModel::String(s) => Ok(s),
            _ => Err(ErrorModel::Eval { msg: arity_msg(name) }),
        }
    } else {
        Err(ErrorModel::Eval { msg: arity_msg(name) })
    }
}

/// Maps a per-entry field across a collection, degrading a per-element
/// NotFound to a null and a recorded missing path.
pub open spec fn spec_run_map(
    entries: Seq<REntry>,
    segs: Seq<SegModel>,
    i: int,
    k: int,
    acc: Seq<ValueModel>,
    meta: MetaModel,
) -> Result<(ValueModel, MetaModel), ErrorModel>
    decreases entries.len() - k,
        when 0 <= k <= entries.len()
{
    if k >= entries.len() {
        Ok((ValueModel::Array(acc), meta))
    } else {
        let ip = spec_run_path(entries[k].run_index, segs, i);
        match spec_run_entry_field(entries[k], segs, i, ip) {
            Ok(v) => spec_run_map(entries, segs, i, k + 1, acc.push(v), meta),
            Err(e) => if e is NotFound {
                spec_run_map(entries, segs, i, k + 1, acc.push(ValueModel::Null), meta_path(
                    meta,
                    ip,
                ))
            } else {
                Err(e)
            },
        }
    }
}

/// What a collection query yields on a RUN collection: raw texts, `COUNT`,
/// `GREP`/`CONTAINS`, or a per-entry field probed on the first entry and
/// then mapped with per-element degrading.
pub open spec fn spec_run_collection(
    ctx: Ctx,
    entries: Seq<REntry>,
    segs: Seq<SegModel>,
    i: int,
    path: Seq<char>,
    meta: MetaModel,
) -> Result<(ValueModel, MetaModel), ErrorModel>
    decreases segs.len() - i,
        when 0 <= i <= segs.len()
{
    if i >= segs.len() {
        Ok((raws_of(entries), meta))
    } else if segs[i] matches SegModel::Ident(f) && f == "COUNT"@ && segs.len() - i == 1 {
        Ok((ValueModel::Number(to_i64(entries.len() as int)), meta))
    } else if segs[i] matches SegModel::Ident(f) && f == "RAW"@ && segs.len() - i == 1 {
        Ok((raws_of(entries), meta))
    } else if segs[i] matches SegModel::Function { ident, args } {
        let fargs = segs[i]->Function_args;
        let fname = segs[i]->Function_ident;
        if fname == "GREP"@ {
            match spec_single_string_arg(fargs, "GREP"@) {
                Err(e) => Err(e),
                Ok(needle) => spec_run_collection(
                    ctx,
                    grep_filter(entries, needle),
                    segs,
                    i + 1,
                    path,
                    meta,
                ),
            }
        } else if fname == "CONTAINS"@ {
            if segs.len() - i != 1 {
                Err(ErrorModel::NotFound { path })
            } else {
                match spec_single_string_arg(fargs, "CONTAINS"@) {
                    Err(e) => Err(e),
                    Ok(needle) => Ok((ValueModel::Bool(any_contains(entries, needle)), meta)),
                }
            }
        } else {
            Err(ErrorModel::NotFound { path })
        }
    } else if entries.len() == 0 {
        Ok((ValueModel::Array(Seq::empty()), meta))
    } else {
        let probe = spec_run_entry_field(
            entries[0],
            segs,
            i,
            spec_run_path(entries[0].run_index, segs, i),
        );
        if probe matches Err(e) && e is NotFound {
            Err(ErrorModel::NotFound { path })
        } else {
            spec_run_map(entries, segs, i, 0, Seq::empty(), meta)
        }
    }
}

/// What a global `ARG` query yields: the whole table, one resolved name,
/// its raw default, or whether it resolves.
pub open spec fn spec_eval_arg_table(
    ctx: Ctx,
    entries: Seq<(Seq<char>, Option<Seq<char>>)>,
    scope: RScope,
    segs: Seq<SegModel>,
    i: int,
    path: Seq<char>,
    meta: MetaModel,
) -> Result<(ValueModel, MetaModel), ErrorModel> {
    if i >= segs.len() {
        Ok((ValueModel::Object(spec_arg_object(entries, 0, Seq::empty())), meta))
    } else {
        match segs[i] {
            SegModel::Ident(name) => if segs.len() - i == 1 {
                match rv(ctx, scope, name, meta) {
                    Err(e) => Err(e),
                    Ok((Some(v), m2)) => Ok((ValueModel::String(v), m2)),
                    Ok((None, m2)) => Err(ErrorModel::NotFound { path }),
                }
            } else if segs.len() - i == 2 && segs[i + 1] matches SegModel::Ident(f) {
                let f = segs[i + 1]->Ident_0;
                if f == "DEFAULT"@ {
                    match spec_arg_lookup(entries, name) {
                        None => Err(ErrorModel::NotFound { path }),
                        Some(d) => Ok((opt_value(d), meta)),
                    }
                } else if f == "SET"@ {
                    match rv(ctx, scope, name, meta) {
                        Err(e) => Err(e),
                        Ok((v, m2)) => Ok((ValueModel::Bool(v is Some), m2)),
                    }
                } else {
                    Err(ErrorModel::NotFound { path })
                }
            } else {
                Err(ErrorModel::NotFound { path })
            },
            _ => Err(ErrorModel::NotFound { path }),
        }
    }
}

/// What one `FROM` field yields for one stage.
pub open spec fn spec_from_stage(
    ctx: Ctx,
    st: Stage,
    segs: Seq<SegModel>,
    i: int,
    meta: MetaModel,
    path: Seq<char>,
) -> Result<(ValueModel, MetaModel), ErrorModel> {
    if i >= segs.len() {
        match spec_resolve_parent(ctx, st, meta) {
            Err(e) => Err(e),
            Ok((resolved, m2)) => Ok((ValueModel::String(resolved), m2)),
        }
    } else if segs.len() - i != 1 {
        Err(ErrorModel::NotFound { path })
    } else {
        match segs[i] {
            SegModel::Ident(f) => if f == "RAW"@ {
                Ok((ValueModel::String(parent_raw_of(st.parent)), meta))
            } else if f == "RESOLVED"@ {
                match spec_resolve_parent(ctx, st, meta) {
                    Err(e) => Err(e),
                    Ok((resolved, m2)) => Ok((ValueModel::String(resolved), m2)),
                }
            } else if f == "KIND"@ {
                Ok((ValueModel::String(parent_kind_of(st.parent)), meta))
            } else if f == "STAGE"@ {
                match st.parent {
                    Parent::StageRef(target) => Ok((ValueModel::String(target@), meta)),
                    _ => Err(ErrorModel::NotFound { path }),
                }
            } else {
                Err(ErrorModel::NotFound { path })
            },
            _ => Err(ErrorModel::NotFound { path }),
        }
    }
}

/// Maps a `FROM` field across the stages from `si` on; any failure aborts.
pub open spec fn spec_from_all(
    ctx: Ctx,
    si: int,
    segs: Seq<SegModel>,
    i: int,
    acc: Seq<ValueModel>,
    meta: MetaModel,
    path: Seq<char>,
) -> Result<(ValueModel, MetaModel), ErrorModel>
    decreases ctx.m.stages@.len() - si,
        when 0 <= si <= ctx.m.stages@.len()
{
    if si >= ctx.m.stages@.len() {
        Ok((ValueModel::Array(acc), meta))
    } else {
        match spec_from_stage(ctx, ctx.m.stages@[si], segs, i, meta, path) {
            Err(e) => Err(e),
            Ok((v, m2)) => spec_from_all(ctx, si + 1, segs, i, acc.push(v), m2, path),
        }
    }
}

/// The resolved parent of every stage, in stage order.
pub open spec fn spec_from_root(ctx: Ctx, segs: Seq<SegModel>, i: int, path: Seq<char>) -> Result<
    (ValueModel, MetaModel),
    ErrorModel,
> {
    if i < segs.len() {
        Err(ErrorModel::NotFound { path })
    } else {
        spec_from_all(ctx, 0, segs, i, Seq::empty(), spec_meta_new(Scope::Global), path)
    }
}

/// A `FROM[..]` query: one stage by position, or every stage; a key index
/// is never found.
pub open spec fn spec_from_index(
    ctx: Ctx,
    idx: IndexModel,
    segs: Seq<SegModel>,
    i: int,
    path: Seq<char>,
) -> Result<(ValueModel, MetaModel), ErrorModel> {
    match idx {
        IndexModel::Position(n) => if 0 <= n < ctx.m.stages@.len() {
            spec_from_stage(ctx, ctx.m.stages@[n], segs, i, spec_meta_new(Scope::Global), path)
        } else {
            Err(ErrorModel::NotFound { path })
        },
        IndexModel::Wildcard => spec_from_all(
            ctx,
            0,
            segs,
            i,
            Seq::empty(),
            spec_meta_new(Scope::Global),
            path,
        ),
        IndexModel::Key(_) => Err(ErrorModel::NotFound { path }),
    }
}

/// The stage indices whose name equals `name` exactly.
pub open spec fn stage_name_matches(m: DockerfileModel, si: int, name: Seq<char>) -> Seq<int>
    decreases m.stages@.len() - si,
        when 0 <= si <= m.stages@.len()
{
    if si >= m.stages@.len() {
        Seq::empty()
    } else {
        let rest = stage_name_matches(m, si + 1, name);
        if opt_str_view(m.stages@[si].name) == Some(name) {
            seq![si] + rest
        } else {
            rest
        }
    }
}

/// The ambiguous-selector error text.
pub open spec fn ambiguous_msg(name: Seq<char>, n: int) -> Seq<char> {
    "stage selector \""@ + name + "\" is ambiguous ("@ + spec_dec_int(n) + " matches)"@
}

/// The stage indices a selector picks: one by position, all by wildcard,
/// or exactly one by name; zero name matches are NotFound and more than
/// one is a fatal ambiguity.
pub open spec fn spec_select_stages(m: DockerfileModel, idx: IndexModel, path: Seq<char>) -> Result<
    Seq<int>,
    ErrorModel,
> {
    match idx {
        IndexModel::Position(n) => if 0 <= n < m.stages@.len() {
            Ok(seq![n])
        } else {
            Err(ErrorModel::NotFound { path })
        },
        IndexModel::Wildcard => Ok(Seq::new(m.stages@.len(), |i: int| i)),
        IndexModel::Key(name) => {
            let matches = stage_name_matches(m, 0, name);
            if matches.len() == 0 {
                Err(ErrorModel::NotFound { path })
            } else if matches.len() > 1 {
                Err(ErrorModel::Eval { msg: ambiguous_msg(name, matches.len() as int) })
            } else {
                Ok(matches)
            }
        },
    }
}

/// What a stage-scoped path yields: the summary object, `NAME`, an `ARG`
/// subtree, a `PARENT` field, `INSTRUCTIONS` metadata, or a stage-scoped
/// `RESOLVE` call.
pub open spec fn spec_eval_stage_path(
    ctx: Ctx,
    si: int,
    segs: Seq<SegModel>,
    i: int,
    path: Seq<char>,
    meta: MetaModel,
) -> Result<(ValueModel, MetaModel), ErrorModel> {
    if !(0 <= si < ctx.m.stages@.len()) {
        Err(ErrorModel::NotFound { path })
    } else {
        let st = ctx.m.stages@[si];
        if i >= segs.len() {
            spec_stage_object(ctx, si, st, meta)
        } else {
            match segs[i] {
                SegModel::Ident(f) => if f == "NAME"@ {
                    if segs.len() - i != 1 {
                        Err(ErrorModel::NotFound { path })
                    } else {
                        Ok((opt_value(opt_str_view(st.name)), meta))
                    }
                } else if f == "ARG"@ {
                    spec_eval_arg_table(
                        ctx,
                        st.arg_defaults@,
                        RScope::Stage(si as usize),
                        segs,
                        i + 1,
                        path,
                        meta,
                    )
                } else if f == "PARENT"@ {
                    if segs.len() - i != 2 {
                        Err(ErrorModel::NotFound { path })
                    } else {
                        match segs[i + 1] {
                            SegModel::Ident(pf) => if pf == "RAW"@ {
                                Ok((ValueModel::String(parent_raw_of(st.parent)), meta))
                            } else if pf == "RESOLVED"@ {
                                match spec_resolve_parent(ctx, st, meta) {
                                    Err(e) => Err(e),
                                    Ok((resolved, m2)) => Ok((ValueModel::String(resolved), m2)),
                                }
                            } else if pf == "KIND"@ {
                                Ok((ValueModel::String(parent_kind_of(st.parent)), meta))
                            } else if pf == "STAGE"@ {
                                match st.parent {
                                    Parent::StageRef(target) => Ok((
                                        ValueModel::String(target@),
                                        meta,
                                    )),
                                    _ => Err(ErrorModel::NotFound { path }),
                                }
                            } else {
                                Err(ErrorModel::NotFound { path })
                            },
                            _ => Err(ErrorModel::NotFound { path }),
                        }
                    }
                } else if f == "INSTRUCTIONS"@ {
                    if segs.len() - (i + 1) != 1 {
                        Err(ErrorModel::NotFound { path })
                    } else {
                        match segs[i + 1] {
                            SegModel::Ident(cf) => if cf == "COUNT"@ {
                                Ok((
                                    ValueModel::Number(to_i64(st.instructions@.len() as int)),
                                    meta,
                                ))
                            } else {
                                Err(ErrorModel::NotFound { path })
                            },
                            _ => Err(ErrorModel::NotFound { path }),
                        }
                    }
                } else {
                    Err(ErrorModel::NotFound { path })
                },
                SegModel::Indexed { ident, index } => if ident == "INSTRUCTIONS"@ {
                    match index {
                        IndexModel::Position(n) => if 0 <= n < st.instructions@.len() {
                            if segs.len() - (i + 1) != 1 {
                                Err(ErrorModel::NotFound { path })
                            } else {
                                match segs[i + 1] {
                                    SegModel::Ident(inf) => if inf == "RAW"@ {
                                        Ok((ValueModel::String(st.instructions@[n].raw@), meta))
                                    } else if inf == "KEYWORD"@ {
                                        Ok((
                                            ValueModel::String(st.instructions@[n].keyword@),
                                            meta,
                                        ))
                                    } else if inf == "SPAN"@ {
                                        Ok((
                                            ValueModel::Object(
                                                spec_span_obj(
                                                    st.instructions@[n].start_line as int,
                                                    st.instructions@[n].end_line as int,
                                                ),
                                            ),
                                            meta,
                                        ))
                                    } else {
                                        Err(ErrorModel::NotFound { path })
                                    },
                                    _ => Err(ErrorModel::NotFound { path }),
                                }
                            }
                        } else {
                            Err(ErrorModel::NotFound { path })
                        },
                        _ => Err(ErrorModel::NotFound { path }),
                    }
                } else {
                    Err(ErrorModel::NotFound { path })
                },
                SegModel::Function { ident, args } => if ident == "RESOLVE"@ {
                    if segs.len() - i != 1 {
                        Err(ErrorModel::NotFound { path })
                    } else if args.len() != 1 {
                        Err(ErrorModel::Eval { msg: "RESOLVE requires exactly one argument"@ })
                    } else {
                        match args[0] {
                            ArgModel::String(input) => match rt(
                                ctx,
                                RScope::Stage(si as usize),
                                input,
                                meta,
                            ) {
                                Err(e) => Err(e),
                                Ok((out, m2)) => Ok((ValueModel::String(out), m2)),
                            },
                            _ => Err(
                                ErrorModel::Eval {
                                    msg: "RESOLVE argument must be a string literal"@,
                                },
                            ),
                        }
                    }
                } else {
                    Err(ErrorModel::NotFound { path })
                },
            }
        }
    }
}

/// The stage summaries of every stage, in order; any failure aborts.
pub open spec fn spec_stage_all(
    ctx: Ctx,
    si: int,
    acc: Seq<ValueModel>,
    meta: MetaModel,
) -> Result<(ValueModel, MetaModel), ErrorModel>
    decreases ctx.m.stages@.len() - si,
        when 0 <= si <= ctx.m.stages@.len()
{
    if si >= ctx.m.stages@.len() {
        Ok((ValueModel::Array(acc), meta))
    } else {
        match spec_stage_object(ctx, si, ctx.m.stages@[si], meta) {
            Err(e) => Err(e),
            Ok((v, m2)) => spec_stage_all(ctx, si + 1, acc.push(v), m2),
        }
    }
}

/// Maps a stage path across the selected stages, degrading a per-stage
/// NotFound to a null and a recorded missing path.
pub open spec fn spec_stage_map(
    ctx: Ctx,
    selected: Seq<int>,
    segs: Seq<SegModel>,
    i: int,
    k: int,
    acc: Seq<ValueModel>,
    meta: MetaModel,
) -> Result<(ValueModel, MetaModel), ErrorModel>
    decreases selected.len() - k,
        when 0 <= k <= selected.len()
{
    if k >= selected.len() {
        Ok((ValueModel::Array(acc), meta))
    } else {
        let sp = spec_stage_path(selected[k], segs, i);
        match spec_eval_stage_path(ctx, selected[k], segs, i, sp, meta) {
            Ok((v, m2)) => spec_stage_map(ctx, selected, segs, i, k + 1, acc.push(v), m2),
            Err(e) => if e is NotFound {
                spec_stage_map(ctx, selected, segs, i, k + 1, acc.push(ValueModel::Null),
                    meta_path(meta, sp))
            } else {
                Err(e)
            },
        }
    }
}

/// A `STAGE[..]` query: wildcard maps with degrading under the wildcard
/// scope; position and key evaluate one stage directly.
pub open spec fn spec_stage_index(
    ctx: Ctx,
    idx: IndexModel,
    segs: Seq<SegModel>,
    i: int,
    path: Seq<char>,
) -> Result<(ValueModel, MetaModel), ErrorModel> {
    match spec_select_stages(ctx.m, idx, path) {
        Err(e) => Err(e),
        Ok(selected) => match idx {
            IndexModel::Wildcard => spec_stage_map(
                ctx,
                selected,
                segs,
                i,
                0,
                Seq::empty(),
                spec_meta_new(Scope::StageWildcard),
            ),
            IndexModel::Position(n) => spec_eval_stage_path(
                ctx,
                n,
                segs,
                i,
                path,
                spec_meta_new(Scope::Stage(n as usize)),
            ),
            IndexModel::Key(_) => spec_eval_stage_path(
                ctx,
                selected[0],
                segs,
                i,
                path,
                spec_meta_new(Scope::Stage(selected[0] as usize)),
            ),
        },
    }
}

/// A top-level `RESOLVE(..)` call: exactly one string literal argument,
/// interpolated in the given scope.
pub open spec fn spec_eval_resolve(
    ctx: Ctx,
    args: Seq<ArgModel>,
    scope: RScope,
    meta_scope: Scope,
) -> Result<(ValueModel, MetaModel), ErrorModel> {
    if args.len() != 1 {
        Err(ErrorModel::Eval { msg: "RESOLVE requires exactly one argument"@ })
    } else {
        match args[0] {
            ArgModel::String(input) => match rt(ctx, scope, input, spec_meta_new(meta_scope)) {
                Err(e) => Err(e),
                Ok((out, m2)) => Ok((ValueModel::String(out), m2)),
            },
            _ => Err(ErrorModel::Eval { msg: "RESOLVE argument must be a string literal"@ }),
        }
    }
}

/// What one evaluation yields: dispatch on the first segment's keyword and
/// index form; an unrecognized leading segment is NotFound, and a
/// `RESOLVE` call with trailing segments is NotFound.
pub open spec fn spec_evaluate(
    m: DockerfileModel,
    ov: Seq<(Seq<char>, Seq<char>)>,
    strict: bool,
    source: Seq<char>,
    segs: Seq<SegModel>,
) -> Result<(ValueModel, MetaModel), ErrorModel> {
    let ctx = Ctx { m, ov, strict };
    if segs.len() == 0 {
        Err(ErrorModel::QueryParse { msg: "empty query"@, span: None })
    } else {
        match segs[0] {
            SegModel::Ident(kw) => if kw == "ARG"@ {
                spec_eval_arg_table(
                    ctx,
                    m.global_args@,
                    RScope::Global,
                    segs,
                    1,
                    source,
                    spec_meta_new(Scope::Global),
                )
            } else if kw == "FROM"@ {
                spec_from_root(ctx, segs, 1, source)
            } else if kw == "RUN"@ {
                spec_run_collection(
                    ctx,
                    run_entries(m),
                    segs,
                    1,
                    source,
                    spec_meta_new(Scope::Global),
                )
            } else if kw == "STAGE"@ {
                if segs.len() > 1 {
                    Err(ErrorModel::NotFound { path: source })
                } else {
                    spec_stage_all(ctx, 0, Seq::empty(), spec_meta_new(Scope::Global))
                }
            } else {
                Err(ErrorModel::NotFound { path: source })
            },
            SegModel::Indexed { ident, index } => if ident == "FROM"@ {
                spec_from_index(ctx, index, segs, 1, source)
            } else if ident == "RUN"@ {
                match index {
                    IndexModel::Position(n) => {
                        let entries = run_entries(m);
                        if 0 <= n < entries.len() {
                            match spec_run_entry_field(entries[n], segs, 1, source) {
                                Err(e) => Err(e),
                                Ok(v) => Ok((v, spec_meta_new(Scope::Global))),
                            }
                        } else {
                            Err(ErrorModel::NotFound { path: source })
                        }
                    },
                    IndexModel::Wildcard => spec_run_collection(
                        ctx,
                        run_entries(m),
                        segs,
                        1,
                        source,
                        spec_meta_new(Scope::Global),
                    ),
                    IndexModel::Key(_) => Err(ErrorModel::NotFound { path: source }),
                }
            } else if ident == "STAGE"@ {
                spec_stage_index(ctx, index, segs, 1, source)
            } else {
                Err(ErrorModel::NotFound { path: source })
            },
            SegModel::Function { ident, args } => if ident == "RESOLVE"@ {
                if segs.len() > 1 {
                    Err(ErrorModel::NotFound { path: source })
                } else {
                    spec_eval_resolve(ctx, args, RScope::Global, Scope::Global)
                }
            } else {
                Err(ErrorModel::NotFound { path: source })
            },
        }
    }
}

/// Builds the default-or-null object of a whole ARG table.
fn arg_object_pairs(table: &ArgDefaults) -> (r: Vec<(String, Value)>)
    ensures
        pairs_view(r@) == spec_arg_object(table@, 0, Seq::empty()),
{
    let mut pairs: Vec<(String, Value)> = Vec::new();
    let mut i: usize = 0;
    proof {
        assert(pairs_view(pairs@) =~= Seq::<(Seq<char>, ValueModel)>::empty());
    }
    let n = table.len();
    while i < n
        invariant
            n == table@.len(),
            i <= n,
            spec_arg_object(table@, 0, Seq::empty()) == spec_arg_object(
                table@,
                i as int,
                pairs_view(pairs@),
            ),
        decreases n - i,
    {
        let (key, value) = table.entry_at(i);
        let v = match value {
            Some(text) => Value::String(text),
            None => Value::Null,
        };
        proof {
            assert(vm_of(v) == opt_value(table@[i as int].1));
        }
        obj_insert(&mut pairs, key, v);
        i += 1;
    }
    pairs
}

/// Builds the `{start, end}` line-span object.
fn span_value(start: usize, end: usize) -> (r: Value)
    ensures
        r@ == ValueModel::Object(spec_span_obj(start as int, end as int)),
{
    let mut pairs: Vec<(String, Value)> = Vec::new();
    proof {
        assert(pairs_view(pairs@) =~= Seq::<(Seq<char>, ValueModel)>::empty());
    }
    #[verifier::truncate]
    let s = start as i64;
    #[verifier::truncate]
    let e = end as i64;
    obj_insert(&mut pairs, String::from_str("start"), Value::Number(s));
    obj_insert(&mut pairs, String::from_str("end"), Value::Number(e));
    Value::Object(pairs)
}

/// One flattened RUN instruction of the document.
struct RunEntry {
    run_index: usize,
    stage_index: usize,
    stage_name: Option<String>,
    raw: String,
    start_line: usize,
    end_line: usize,
}

spec fn re_view(e: RunEntry) -> REntry {
    REntry {
        run_index: e.run_index as int,
        stage_index: e.stage_index as int,
        stage_name: opt_str_view(e.stage_name),
        raw: e.raw@,
        start_line: e.start_line as int,
        end_line: e.end_line as int,
    }
}

spec fn res_view(v: Seq<RunEntry>) -> Seq<REntry> {
    Seq::new(v.len(), |i: int| re_view(v[i]))
}

/// Flattens all RUN instructions across all stages, in document order,
/// numbering them from zero.
fn collect_run_entries(m: &DockerfileModel) -> (r: Vec<RunEntry>)
    ensures
        res_view(r@) == run_entries(*m),
{
    let mut entries: Vec<RunEntry> = Vec::new();
    let mut si: usize = 0;
    proof {
        assert(res_view(entries@) =~= Seq::<REntry>::empty());
    }
    while si < m.stages.len()
        invariant
            si <= m.stages@.len(),
            run_entries(*m) == collect_runs(*m, si as int, res_view(entries@)),
        decreases m.stages@.len() - si,
    {
        let stage = &m.stages[si];
        let mut j: usize = 0;
        while j < stage.instructions.len()
            invariant
                si < m.stages@.len(),
                *stage == m.stages@[si as int],
                j <= stage.instructions@.len(),
                run_entries(*m) == collect_runs(
                    *m,
                    si + 1,
                    collect_stage_runs(
                        m.stages@[si as int],
                        si as int,
                        res_view(entries@),
                        j as int,
                    ),
                ),
            decreases stage.instructions@.len() - j,
        {
            let ins = &stage.instructions[j];
            if str_eq(ins.keyword.as_str(), "RUN") {
                let name_copy = match &stage.name {
                    Some(s) => Some(s.clone()),
                    None => None,
                };
                let ghost pre = entries@;
                let run_index = entries.len();
                entries.push(
                    RunEntry {
                        run_index,
                        stage_index: si,
                        stage_name: name_copy,
                        raw: ins.raw.clone(),
                        start_line: ins.start_line,
                        end_line: ins.end_line,
                    },
                );
                proof {
                    assert(res_view(entries@) =~= res_view(pre).push(
                        REntry {
                            run_index: pre.len() as int,
                            stage_index: si as int,
                            stage_name: opt_str_view(m.stages@[si as int].name),
                            raw: m.stages@[si as int].instructions@[j as int].raw@,
                            start_line: m.stages@[si as int].instructions@[
                                j as int
                            ].start_line as int,
                            end_line: m.stages@[si as int].instructions@[
                                j as int
                            ].end_line as int,
                        },
                    ));
                }
            }
            j += 1;
        }
        si += 1;
    }
    entries
}

/// The first position at or after `i` holding no whitespace.
fn trim_pos(t: &Vec<char>, i: usize) -> (r: usize)
    requires
        i <= t@.len(),
    ensures
        r == crate::query::spec_skip_ws(t@, i as int),
        i <= r <= t@.len(),
{
    let mut j = i;
    loop
        invariant
            i <= j <= t@.len(),
            crate::query::spec_skip_ws(t@, i as int) == crate::query::spec_skip_ws(
                t@,
                j as int,
            ),
        decreases t@.len() - j,
    {
        if j >= t.len() {
            return j;
        }
        if !crate::text::is_space_char(t[j]) {
            return j;
        }
        j += 1;
    }
}

/// Strips a leading case-insensitive `RUN` keyword and the whitespace
/// around it from an instruction's raw text.
fn run_command_of(raw: &str) -> (r: String)
    ensures
        r@ == spec_run_command(raw@),
{
    let t = str_to_chars(raw);
    let j0 = trim_pos(&t, 0);
    if t.len() >= 4 && j0 <= t.len() - 4 {
        let c0 = t[j0];
        let c1 = t[j0 + 1];
        let c2 = t[j0 + 2];
        let c3 = t[j0 + 3];
        if (c0 == 'r' || c0 == 'R') && (c1 == 'u' || c1 == 'U') && (c2 == 'n' || c2 == 'N')
            && crate::text::is_space_char(c3) {
            let j1 = trim_pos(&t, j0 + 3);
            let out = crate::text::range_to_string(&t, j1, t.len());
            proof {
                assert(out@ =~= raw@.skip(j1 as int));
            }
            return out;
        }
    }
    let out = crate::text::range_to_string(&t, j0, t.len());
    proof {
        assert(out@ =~= raw@.skip(j0 as int));
    }
    out
}

/// Appends the path rendering of one argument.
fn push_arg_string(out: &mut Vec<char>, a: &Arg)
    ensures
        final(out)@ == old(out)@ + spec_arg_string(a@),
{
    match a {
        Arg::String(s) => {
            out.push('"');
            append_str(out, s.as_str());
            out.push('"');
            proof {
                assert(out@ =~= old(out)@ + (seq!['"'] + s@ + seq!['"']));
            }
        },
        Arg::Ident(s) => {
            append_str(out, s.as_str());
        },
        Arg::Number(n) => {
            let digits = dec_chars_i64(*n);
            append_chars(out, &digits);
        },
    }
}

/// Appends the path rendering of one segment.
fn push_seg_string(out: &mut Vec<char>, seg: &Segment)
    ensures
        final(out)@ == old(out)@ + spec_seg_string(seg@),
{
    match seg {
        Segment::Ident(s) => {
            append_str(out, s.as_str());
        },
        Segment::Indexed { ident, index } => {
            append_str(out, ident.as_str());
            match index {
                Index::Position(n) => {
                    out.push('[');
                    let digits = dec_chars_u64(*n as u64);
                    append_chars(out, &digits);
                    out.push(']');
                    proof {
                        assert(spec_dec_int(*n as int) == spec_dec_nat(*n as nat));
                        assert(out@ =~= old(out)@ + (ident@ + seq!['['] + spec_dec_int(
                            *n as int,
                        ) + seq![']']));
                    }
                },
                Index::Wildcard => {
                    append_str(out, "[*]");
                    proof {
                        assert(out@ =~= old(out)@ + (ident@ + "[*]"@));
                    }
                },
                Index::Key(k) => {
                    append_str(out, "[\"");
                    append_str(out, k.as_str());
                    append_str(out, "\"]");
                    proof {
                        assert(out@ =~= old(out)@ + (ident@ + "[\""@ + k@ + "\"]"@));
                    }
                },
            }
        },
        Segment::Function { ident, args } => {
            append_str(out, ident.as_str());
            out.push('(');
            let ghost base = out@;
            let mut k: usize = 0;
            while k < args.len()
                invariant
                    k <= args@.len(),
                    seg@ == (SegModel::Function {
                        ident: ident@,
                        args: args_view(args@),
                    }),
                    out@ == base + spec_args_prefix(args_view(args@), k as int),
                decreases args@.len() - k,
            {
                if k > 0 {
                    append_str(out, ", ");
                }
                push_arg_string(out, &args[k]);
                proof {
                    assert(args_view(args@)[k as int] == args@[k as int]@);
                    if k == 0 {
                        assert(out@ =~= base + spec_args_prefix(args_view(args@), k + 1));
                    } else {
                        assert(out@ =~= base + spec_args_prefix(args_view(args@), k + 1));
                    }
                }
                k += 1;
            }
            out.push(')');
            proof {
                assert(out@ =~= old(out)@ + spec_seg_string(seg@));
            }
        },
    }
}

/// The fully-qualified per-element path: a `RUN[i]` or `STAGE[i]` head and
/// the remaining segments.
fn element_path(head: &str, idx: usize, segs: &Vec<Segment>, i: usize) -> (r: String)
    requires
        i <= segs@.len(),
    ensures
        r@ == head@ + spec_dec_int(idx as int) + "]"@ + spec_path_suffix(
            segs_view(segs@),
            i as int,
        ),
{
    let mut out: Vec<char> = Vec::new();
    append_str(&mut out, head);
    let digits = dec_chars_u64(idx as u64);
    append_chars(&mut out, &digits);
    append_str(&mut out, "]");
    let ghost head_part = out@;
    proof {
        assert(spec_dec_int(idx as int) == spec_dec_nat(idx as nat));
    }
    let mut k = i;
    while k < segs.len()
        invariant
            i <= k <= segs@.len(),
            head_part + spec_path_suffix(segs_view(segs@), i as int) == out@
                + spec_path_suffix(segs_view(segs@), k as int),
        decreases segs@.len() - k,
    {
        out.push('.');
        push_seg_string(&mut out, &segs[k]);
        proof {
            assert(segs_view(segs@)[k as int] == segs@[k as int]@);
            assert(spec_path_suffix(segs_view(segs@), k as int) == seq!['.'] + spec_seg_string(
                segs_view(segs@)[k as int],
            ) + spec_path_suffix(segs_view(segs@), k + 1));
            assert(head_part + spec_path_suffix(segs_view(segs@), i as int) =~= out@
                + spec_path_suffix(segs_view(segs@), k + 1));
        }
        k += 1;
    }
    proof {
        assert(head_part + spec_path_suffix(segs_view(segs@), i as int) =~= out@);
    }
    chars_to_string(&out)
}

/// The single string argument of a collection function, or the arity
/// error naming the function.
fn single_string_arg(args: &Vec<Arg>, name: &str) -> (r: Result<String, Error>)
    ensures
        match r {
            Ok(s) => spec_single_string_arg(args_view(args@), name@) == Ok::<Seq<char>, ErrorModel>(
                s@,
            ),
            Err(e) => spec_single_string_arg(args_view(args@), name@) matches Err(em) && e@ == em,
        },
{
    if args.len() == 1 {
        match &args[0] {
            Arg::String(s) => {
                proof {
                    assert(args_view(args@)[0] == args@[0]@);
                }
                return Ok(s.clone());
            },
            _ => {
                proof {
                    assert(args_view(args@)[0] == args@[0]@);
                }
            },
        }
    }
    let msg = build_msg(name, " requires exactly one string argument", "");
    proof {
        reveal_strlit("");
        assert(msg@ =~= arity_msg(name@));
    }
    Err(Error::Eval { msg })
}

/// Interpolates a template with a fresh resolution stack.
fn rt_exec(
    m: &DockerfileModel,
    ov: &Overrides,
    strict: bool,
    scope: RScope,
    input: &str,
    meta: &mut EvalMeta,
) -> (r: Result<String, Error>)
    ensures
        match r {
            Ok(s) => rt(Ctx { m: *m, ov: ov@, strict }, scope, input@, old(meta)@)
                == Ok::<(Seq<char>, MetaModel), ErrorModel>((s@, final(meta)@)),
            Err(e) => rt(Ctx { m: *m, ov: ov@, strict }, scope, input@, old(meta)@)
                == Err::<(Seq<char>, MetaModel), ErrorModel>(e@) && e@ is Eval,
        },
{
    let t = str_to_chars(input);
    let mut stack: Vec<ResolveKey> = Vec::new();
    proof {
        assert(keys_view(stack@) =~= Seq::<(RScope, Seq<char>)>::empty());
    }
    match resolve_text(m, ov, strict, scope, &t, 0, meta, &mut stack) {
        Ok(out) => Ok(chars_to_string(&out)),
        Err(e) => {
            proof {
                lemma_rtext_err(
                    *m,
                    ov@,
                    strict,
                    scope,
                    input@,
                    0,
                    old(meta)@,
                    Seq::empty(),
                );
            }
            Err(e)
        },
    }
}

/// Looks one name up with a fresh resolution stack.
fn rv_exec(
    m: &DockerfileModel,
    ov: &Overrides,
    strict: bool,
    scope: RScope,
    name: &str,
    meta: &mut EvalMeta,
) -> (r: Result<Option<String>, Error>)
    ensures
        match r {
            Ok(v) => rv(Ctx { m: *m, ov: ov@, strict }, scope, name@, old(meta)@)
                == Ok::<(Option<Seq<char>>, MetaModel), ErrorModel>((
                opt_str_view(v),
                final(meta)@,
            )),
            Err(e) => rv(Ctx { m: *m, ov: ov@, strict }, scope, name@, old(meta)@)
                == Err::<(Option<Seq<char>>, MetaModel), ErrorModel>(e@) && e@ is Eval,
        },
        r matches Ok(v) && v is None ==> final(meta)@ == old(meta)@,
{
    let mut stack: Vec<ResolveKey> = Vec::new();
    proof {
        assert(keys_view(stack@) =~= Seq::<(RScope, Seq<char>)>::empty());
        lemma_resolve_err_is_eval(*m, ov@, strict, scope, name@, old(meta)@, Seq::empty());
    }
    resolve_var(m, ov, strict, scope, name, meta, &mut stack)
}

/// The parent token as written.
fn parent_raw_exec(p: &Parent) -> (r: String)
    ensures
        r@ == parent_raw_of(*p),
{
    match p {
        Parent::Image(raw) => raw.clone(),
        Parent::Scratch => String::from_str("scratch"),
        Parent::StageRef(target) => target.clone(),
    }
}

/// The parent kind label.
fn parent_kind_exec(p: &Parent) -> (r: String)
    ensures
        r@ == parent_kind_of(*p),
{
    match p {
        Parent::Image(_) => String::from_str("image"),
        Parent::Scratch => String::from_str("scratch"),
        Parent::StageRef(_) => String::from_str("stage"),
    }
}

/// Resolves a stage's parent string.
fn resolve_parent_exec(
    m: &DockerfileModel,
    ov: &Overrides,
    strict: bool,
    st: &Stage,
    meta: &mut EvalMeta,
) -> (r: Result<String, Error>)
    ensures
        match r {
            Ok(s) => spec_resolve_parent(Ctx { m: *m, ov: ov@, strict }, *st, old(meta)@)
                == Ok::<(Seq<char>, MetaModel), ErrorModel>((s@, final(meta)@)),
            Err(e) => spec_resolve_parent(Ctx { m: *m, ov: ov@, strict }, *st, old(meta)@)
                == Err::<(Seq<char>, MetaModel), ErrorModel>(e@) && e@ is Eval,
        },
{
    match &st.parent {
        Parent::Image(raw) => rt_exec(m, ov, strict, RScope::Global, raw.as_str(), meta),
        Parent::Scratch => Ok(String::from_str("scratch")),
        Parent::StageRef(target) => Ok(target.clone()),
    }
}

/// Builds the stage summary object.
fn stage_object_exec(
    m: &DockerfileModel,
    ov: &Overrides,
    strict: bool,
    index: usize,
    st: &Stage,
    meta: &mut EvalMeta,
) -> (r: Result<Value, Error>)
    ensures
        match r {
            Ok(v) => spec_stage_object(
                Ctx { m: *m, ov: ov@, strict },
                index as int,
                *st,
                old(meta)@,
            ) == Ok::<(ValueModel, MetaModel), ErrorModel>((v@, final(meta)@)),
            Err(e) => spec_stage_object(
                Ctx { m: *m, ov: ov@, strict },
                index as int,
                *st,
                old(meta)@,
            ) == Err::<(ValueModel, MetaModel), ErrorModel>(e@) && e@ is Eval,
        },
{
    let resolved = match resolve_parent_exec(m, ov, strict, st, meta) {
        Ok(s) => s,
        Err(e) => {
            return Err(e);
        },
    };
    let mut parent_map: Vec<(String, Value)> = Vec::new();
    proof {
        assert(pairs_view(parent_map@) =~= Seq::<(Seq<char>, ValueModel)>::empty());
    }
    obj_insert(&mut parent_map, String::from_str("raw"), Value::String(parent_raw_exec(&st.parent)));
    obj_insert(&mut parent_map, String::from_str("resolved"), Value::String(resolved));
    obj_insert(
        &mut parent_map,
        String::from_str("kind"),
        Value::String(parent_kind_exec(&st.parent)),
    );
    match &st.parent {
        Parent::StageRef(target) => {
            obj_insert(&mut parent_map, String::from_str("stage"), Value::String(target.clone()));
        },
        _ => {},
    }
    let mut stage_map: Vec<(String, Value)> = Vec::new();
    proof {
        assert(pairs_view(stage_map@) =~= Seq::<(Seq<char>, ValueModel)>::empty());
    }
    #[verifier::truncate]
    let index_num = index as i64;
    obj_insert(&mut stage_map, String::from_str("index"), Value::Number(index_num));
    let name_value = match &st.name {
        Some(n) => Value::String(n.clone()),
        None => Value::Null,
    };
    obj_insert(&mut stage_map, String::from_str("name"), name_value);
    obj_insert(&mut stage_map, String::from_str("parent"), Value::Object(parent_map));
    obj_insert(
        &mut stage_map,
        String::from_str("arg"),
        Value::Object(arg_object_pairs(&st.arg_defaults)),
    );
    let mut instruction_meta: Vec<(String, Value)> = Vec::new();
    proof {
        assert(pairs_view(instruction_meta@) =~= Seq::<(Seq<char>, ValueModel)>::empty());
    }
    #[verifier::truncate]
    let count_num = st.instructions.len() as i64;
    obj_insert(&mut instruction_meta, String::from_str("count"), Value::Number(count_num));
    obj_insert(&mut stage_map, String::from_str("instructions"), Value::Object(instruction_meta));
    Ok(Value::Object(stage_map))
}

/// Evaluates one per-entry field of a RUN entry.
fn eval_run_entry_exec(e: &RunEntry, segs: &Vec<Segment>, i: usize, path: &str) -> (r: Result<
    Value,
    Error,
>)
    requires
        i <= segs@.len(),
    ensures
        match r {
            Ok(v) => spec_run_entry_field(re_view(*e), segs_view(segs@), i as int, path@)
                == Ok::<ValueModel, ErrorModel>(v@),
            Err(er) => spec_run_entry_field(re_view(*e), segs_view(segs@), i as int, path@)
                == Err::<ValueModel, ErrorModel>(er@),
        },
{
    if i >= segs.len() {
        return Ok(Value::String(e.raw.clone()));
    }
    if segs.len() - i != 1 {
        return Err(Error::not_found(path));
    }
    proof {
        assert(segs_view(segs@)[i as int] == segs@[i as int]@);
    }
    match &segs[i] {
        Segment::Ident(f) => {
            if str_eq(f.as_str(), "RAW") {
                Ok(Value::String(e.raw.clone()))
            } else if str_eq(f.as_str(), "COMMAND") {
                Ok(Value::String(run_command_of(e.raw.as_str())))
            } else if str_eq(f.as_str(), "KEYWORD") {
                Ok(Value::String(String::from_str("RUN")))
            } else if str_eq(f.as_str(), "INDEX") {
                #[verifier::truncate]
                let n = e.run_index as i64;
                Ok(Value::Number(n))
            } else if str_eq(f.as_str(), "STAGE") {
                #[verifier::truncate]
                let n = e.stage_index as i64;
                Ok(Value::Number(n))
            } else if str_eq(f.as_str(), "STAGE_NAME") {
                match &e.stage_name {
                    Some(n) => Ok(Value::String(n.clone())),
                    None => Ok(Value::Null),
                }
            } else if str_eq(f.as_str(), "SPAN") {
                Ok(span_value(e.start_line, e.end_line))
            } else {
                Err(Error::not_found(path))
            }
        },
        _ => Err(Error::not_found(path)),
    }
}

/// Copies a RUN entry.
fn clone_entry(e: &RunEntry) -> (r: RunEntry)
    ensures
        re_view(r) == re_view(*e),
{
    RunEntry {
        run_index: e.run_index,
        stage_index: e.stage_index,
        stage_name: match &e.stage_name {
            Some(n) => Some(n.clone()),
            None => None,
        },
        raw: e.raw.clone(),
        start_line: e.start_line,
        end_line: e.end_line,
    }
}

/// The raw texts of a collection, as an array value.
fn raws_value(entries: &Vec<RunEntry>) -> (r: Value)
    ensures
        r@ == raws_of(res_view(entries@)),
{
    let mut items: Vec<Value> = Vec::new();
    let mut k: usize = 0;
    while k < entries.len()
        invariant
            k <= entries@.len(),
            items@.len() == k,
            forall|j: int| 0 <= j < k ==> vm_of(#[trigger] items@[j]) == ValueModel::String(
                entries@[j].raw@,
            ),
        decreases entries@.len() - k,
    {
        items.push(Value::String(entries[k].raw.clone()));
        k += 1;
    }
    let ghost items_snapshot = items@;
    let r = Value::Array(items);
    proof {
        crate::value::lemma_vms_of(items_snapshot);
        let es = res_view(entries@);
        assert forall|j: int| 0 <= j < items_snapshot.len() implies vms_of(items_snapshot)[j]
            == ValueModel::String(es[j].raw) by {
            assert(vms_of(items_snapshot)[j] == vm_of(items_snapshot[j]));
            assert(es[j] == re_view(entries@[j]));
        }
        assert(vms_of(items_snapshot) =~= Seq::new(es.len(), |k: int| ValueModel::String(
            es[k].raw,
        )));
    }
    r
}

/// Evaluates a collection query on a RUN collection.
fn eval_run_collection_exec(
    m: &DockerfileModel,
    ov: &Overrides,
    strict: bool,
    entries: &Vec<RunEntry>,
    segs: &Vec<Segment>,
    i: usize,
    path: &str,
    meta: &mut EvalMeta,
) -> (r: Result<Value, Error>)
    requires
        i <= segs@.len(),
    ensures
        match r {
            Ok(v) => spec_run_collection(
                Ctx { m: *m, ov: ov@, strict },
                res_view(entries@),
                segs_view(segs@),
                i as int,
                path@,
                old(meta)@,
            ) == Ok::<(ValueModel, MetaModel), ErrorModel>((v@, final(meta)@)),
            Err(e) => spec_run_collection(
                Ctx { m: *m, ov: ov@, strict },
                res_view(entries@),
                segs_view(segs@),
                i as int,
                path@,
                old(meta)@,
            ) == Err::<(ValueModel, MetaModel), ErrorModel>(e@),
        },
    decreases segs@.len() - i,
{
    if i >= segs.len() {
        return Ok(raws_value(entries));
    }
    proof {
        assert(segs_view(segs@)[i as int] == segs@[i as int]@);
    }
    let is_last = segs.len() - i == 1;
    match &segs[i] {
        Segment::Ident(f) => {
            if str_eq(f.as_str(), "COUNT") && is_last {
                #[verifier::truncate]
                let n = entries.len() as i64;
                return Ok(Value::Number(n));
            }
            if str_eq(f.as_str(), "RAW") && is_last {
                return Ok(raws_value(entries));
            }
        },
        Segment::Function { ident, args } => {
            if str_eq(ident.as_str(), "GREP") {
                let needle = match single_string_arg(args, "GREP") {
                    Ok(s) => s,
                    Err(e) => {
                        return Err(e);
                    },
                };
                let mut filtered: Vec<RunEntry> = Vec::new();
                let mut k: usize = 0;
                proof {
                    assert(res_view(entries@).skip(0) =~= res_view(entries@));
                    assert(res_view(filtered@) =~= Seq::<REntry>::empty());
                }
                while k < entries.len()
                    invariant
                        k <= entries@.len(),
                        grep_filter(res_view(entries@), needle@) == res_view(filtered@)
                            + grep_filter(res_view(entries@).skip(k as int), needle@),
                    decreases entries@.len() - k,
                {
                    proof {
                        assert(res_view(entries@).skip(k as int)[0] == res_view(entries@)[
                            k as int
                        ]);
                        assert(res_view(entries@)[k as int] == re_view(entries@[k as int]));
                        assert(res_view(entries@).skip(k as int).skip(1) =~= res_view(
                            entries@,
                        ).skip(k + 1));
                    }
                    if str_contains(entries[k].raw.as_str(), needle.as_str()) {
                        let ghost pre = filtered@;
                        filtered.push(clone_entry(&entries[k]));
                        proof {
                            assert(res_view(filtered@) =~= res_view(pre).push(
                                re_view(entries@[k as int]),
                            ));
                            assert(res_view(pre) + (seq![re_view(entries@[k as int])]
                                + grep_filter(res_view(entries@).skip(k + 1), needle@)) =~= (
                            res_view(pre).push(re_view(entries@[k as int]))) + grep_filter(
                                res_view(entries@).skip(k + 1),
                                needle@,
                            ));
                        }
                    }
                    k += 1;
                }
                proof {
                    assert(res_view(entries@).skip(entries@.len() as int)
                        =~= Seq::<REntry>::empty());
                    assert(res_view(filtered@) + Seq::<REntry>::empty() =~= res_view(filtered@));
                }
                return eval_run_collection_exec(m, ov, strict, &filtered, segs, i + 1, path, meta);
            }
            if str_eq(ident.as_str(), "CONTAINS") {
                if !is_last {
                    return Err(Error::not_found(path));
                }
                let needle = match single_string_arg(args, "CONTAINS") {
                    Ok(s) => s,
                    Err(e) => {
                        return Err(e);
                    },
                };
                let mut found = false;
                let mut k: usize = 0;
                proof {
                    assert(res_view(entries@).skip(0) =~= res_view(entries@));
                }
                while k < entries.len() && !found
                    invariant
                        k <= entries@.len(),
                        !found ==> any_contains(res_view(entries@), needle@) == any_contains(
                            res_view(entries@).skip(k as int),
                            needle@,
                        ),
                        found ==> any_contains(res_view(entries@), needle@),
                    decreases entries@.len() - k + (if found { 0int } else { 1int }),
                {
                    proof {
                        assert(res_view(entries@).skip(k as int)[0] == res_view(entries@)[
                            k as int
                        ]);
                        assert(res_view(entries@)[k as int] == re_view(entries@[k as int]));
                        assert(res_view(entries@).skip(k as int).skip(1) =~= res_view(
                            entries@,
                        ).skip(k + 1));
                    }
                    if str_contains(entries[k].raw.as_str(), needle.as_str()) {
                        found = true;
                    } else {
                        k += 1;
                    }
                }
                proof {
                    if !found {
                        assert(res_view(entries@).skip(entries@.len() as int)
                            =~= Seq::<REntry>::empty());
                    }
                }
                return Ok(Value::Bool(found));
            }
            return Err(Error::not_found(path));
        },
        _ => {},
    }
    if entries.len() == 0 {
        let items: Vec<Value> = Vec::new();
        let ghost items_snapshot = items@;
        let r = Value::Array(items);
        proof {
            assert(vms_of(items_snapshot) =~= Seq::<ValueModel>::empty());
        }
        return Ok(r);
    }
    let probe_path = element_path("RUN[", entries[0].run_index, segs, i);
    proof {
        assert(res_view(entries@)[0] == re_view(entries@[0]));
    }
    match eval_run_entry_exec(&entries[0], segs, i, probe_path.as_str()) {
        Err(e) => {
            if matches!(e, Error::NotFound { .. }) {
                return Err(Error::not_found(path));
            }
        },
        Ok(_) => {},
    }
    let mut values: Vec<Value> = Vec::new();
    let mut k: usize = 0;
    let ghost meta0 = meta@;
    let ghost es = res_view(entries@);
    let ghost sv = segs_view(segs@);
    proof {
        assert(vms_of(values@) =~= Seq::<ValueModel>::empty());
    }
    while k < entries.len()
        invariant
            k <= entries@.len(),
            es == res_view(entries@),
            sv == segs_view(segs@),
            i <= segs@.len(),
            spec_run_map(es, sv, i as int, 0, Seq::empty(), meta0) == spec_run_map(
                es,
                sv,
                i as int,
                k as int,
                vms_of(values@),
                meta@,
            ),
        decreases entries@.len() - k,
    {
        let item_path = element_path("RUN[", entries[k].run_index, segs, i);
        proof {
            assert(es[k as int] == re_view(entries@[k as int]));
            assert(item_path@ == spec_run_path(es[k as int].run_index, sv, i as int));
        }
        match eval_run_entry_exec(&entries[k], segs, i, item_path.as_str()) {
            Ok(v) => {
                let ghost prev = values@;
                values.push(v);
                proof {
                    crate::value::lemma_vms_push(prev, values@, values@[prev.len() as int]);
                }
            },
            Err(e) => {
                if matches!(e, Error::NotFound { .. }) {
                    let ghost prev = values@;
                    values.push(Value::Null);
                    let ghost meta_prev = meta@;
                    meta.missing_paths.push(item_path);
                    proof {
                        crate::value::lemma_vms_push(prev, values@, values@[prev.len() as int]);
                        assert(vms_of(values@) == vms_of(prev).push(ValueModel::Null));
                        assert(strs_view(meta.missing_paths@) =~= meta_prev.missing_paths.push(
                            spec_run_path(es[k as int].run_index, sv, i as int),
                        ));
                        assert(meta@ == meta_path(
                            meta_prev,
                            spec_run_path(es[k as int].run_index, sv, i as int),
                        ));
                    }
                } else {
                    return Err(e);
                }
            },
        }
        k += 1;
    }
    Ok(Value::Array(values))
}

/// Evaluates a `FROM` field for one stage.
fn from_stage_exec(
    m: &DockerfileModel,
    ov: &Overrides,
    strict: bool,
    st: &Stage,
    segs: &Vec<Segment>,
    i: usize,
    meta: &mut EvalMeta,
    path: &str,
) -> (r: Result<Value, Error>)
    requires
        i <= segs@.len(),
    ensures
        match r {
            Ok(v) => spec_from_stage(
                Ctx { m: *m, ov: ov@, strict },
                *st,
                segs_view(segs@),
                i as int,
                old(meta)@,
                path@,
            ) == Ok::<(ValueModel, MetaModel), ErrorModel>((v@, final(meta)@)),
            Err(e) => spec_from_stage(
                Ctx { m: *m, ov: ov@, strict },
                *st,
                segs_view(segs@),
                i as int,
                old(meta)@,
                path@,
            ) == Err::<(ValueModel, MetaModel), ErrorModel>(e@) && (e@ is NotFound
                ==> final(meta)@ == old(meta)@),
        },
{
    if i >= segs.len() {
        return match resolve_parent_exec(m, ov, strict, st, meta) {
            Ok(s) => Ok(Value::String(s)),
            Err(e) => Err(e),
        };
    }
    if segs.len() - i != 1 {
        return Err(Error::not_found(path));
    }
    proof {
        assert(segs_view(segs@)[i as int] == segs@[i as int]@);
    }
    match &segs[i] {
        Segment::Ident(f) => {
            if str_eq(f.as_str(), "RAW") {
                Ok(Value::String(parent_raw_exec(&st.parent)))
            } else if str_eq(f.as_str(), "RESOLVED") {
                match resolve_parent_exec(m, ov, strict, st, meta) {
                    Ok(s) => Ok(Value::String(s)),
                    Err(e) => Err(e),
                }
            } else if str_eq(f.as_str(), "KIND") {
                Ok(Value::String(parent_kind_exec(&st.parent)))
            } else if str_eq(f.as_str(), "STAGE") {
                match &st.parent {
                    Parent::StageRef(target) => Ok(Value::String(target.clone())),
                    _ => Err(Error::not_found(path)),
                }
            } else {
                Err(Error::not_found(path))
            }
        },
        _ => Err(Error::not_found(path)),
    }
}

/// Maps a `FROM` field across every stage; any failure aborts.
fn from_all_exec(
    m: &DockerfileModel,
    ov: &Overrides,
    strict: bool,
    segs: &Vec<Segment>,
    i: usize,
    meta: &mut EvalMeta,
    path: &str,
) -> (r: Result<Value, Error>)
    requires
        i <= segs@.len(),
    ensures
        match r {
            Ok(v) => spec_from_all(
                Ctx { m: *m, ov: ov@, strict },
                0,
                segs_view(segs@),
                i as int,
                Seq::empty(),
                old(meta)@,
                path@,
            ) == Ok::<(ValueModel, MetaModel), ErrorModel>((v@, final(meta)@)),
            Err(e) => spec_from_all(
                Ctx { m: *m, ov: ov@, strict },
                0,
                segs_view(segs@),
                i as int,
                Seq::empty(),
                old(meta)@,
                path@,
            ) == Err::<(ValueModel, MetaModel), ErrorModel>(e@),
        },
{
    let ghost ctx = Ctx { m: *m, ov: ov@, strict };
    let ghost sv = segs_view(segs@);
    let ghost meta0 = meta@;
    let mut values: Vec<Value> = Vec::new();
    let mut si: usize = 0;
    proof {
        assert(vms_of(values@) =~= Seq::<ValueModel>::empty());
    }
    while si < m.stages.len()
        invariant
            si <= m.stages@.len(),
            i <= segs@.len(),
            ctx == (Ctx { m: *m, ov: ov@, strict }),
            sv == segs_view(segs@),
            meta0 == old(meta)@,
            spec_from_all(ctx, 0, sv, i as int, Seq::empty(), meta0, path@) == spec_from_all(
                ctx,
                si as int,
                sv,
                i as int,
                vms_of(values@),
                meta@,
                path@,
            ),
        decreases m.stages@.len() - si,
    {
        let v = match from_stage_exec(m, ov, strict, &m.stages[si], segs, i, meta, path) {
            Ok(v) => v,
            Err(e) => {
                return Err(e);
            },
        };
        let ghost prev = values@;
        values.push(v);
        proof {
            crate::value::lemma_vms_push(prev, values@, values@[prev.len() as int]);
        }
        si += 1;
    }
    Ok(Value::Array(values))
}

/// Evaluates an `ARG` subtree against one table and scope.
fn eval_arg_table_exec(
    m: &DockerfileModel,
    ov: &Overrides,
    strict: bool,
    table: &ArgDefaults,
    scope: RScope,
    segs: &Vec<Segment>,
    i: usize,
    path: &str,
    meta: &mut EvalMeta,
) -> (r: Result<Value, Error>)
    requires
        i <= segs@.len(),
    ensures
        match r {
            Ok(v) => spec_eval_arg_table(
                Ctx { m: *m, ov: ov@, strict },
                table@,
                scope,
                segs_view(segs@),
                i as int,
                path@,
                old(meta)@,
            ) == Ok::<(ValueModel, MetaModel), ErrorModel>((v@, final(meta)@)),
            Err(e) => spec_eval_arg_table(
                Ctx { m: *m, ov: ov@, strict },
                table@,
                scope,
                segs_view(segs@),
                i as int,
                path@,
                old(meta)@,
            ) == Err::<(ValueModel, MetaModel), ErrorModel>(e@) && (e@ is NotFound
                ==> final(meta)@ == old(meta)@),
        },
{
    if i >= segs.len() {
        return Ok(Value::Object(arg_object_pairs(table)));
    }
    proof {
        assert(segs_view(segs@)[i as int] == segs@[i as int]@);
    }
    let name = match &segs[i] {
        Segment::Ident(name) => name,
        _ => {
            return Err(Error::not_found(path));
        },
    };
    if segs.len() - i == 1 {
        return match rv_exec(m, ov, strict, scope, name.as_str(), meta) {
            Err(e) => Err(e),
            Ok(Some(v)) => Ok(Value::String(v)),
            Ok(None) => Err(Error::not_found(path)),
        };
    }
    if segs.len() - i == 2 {
        proof {
            assert(segs_view(segs@)[i + 1] == segs@[i + 1]@);
        }
        match &segs[i + 1] {
            Segment::Ident(f) => {
                if str_eq(f.as_str(), "DEFAULT") {
                    return match table.get(name.as_str()) {
                        None => Err(Error::not_found(path)),
                        Some(d) => match d {
                            Some(text) => Ok(Value::String(text)),
                            None => Ok(Value::Null),
                        },
                    };
                }
                if str_eq(f.as_str(), "SET") {
                    return match rv_exec(m, ov, strict, scope, name.as_str(), meta) {
                        Err(e) => Err(e),
                        Ok(v) => Ok(Value::Bool(v.is_some())),
                    };
                }
                return Err(Error::not_found(path));
            },
            _ => {
                return Err(Error::not_found(path));
            },
        }
    }
    Err(Error::not_found(path))
}

/// Evaluates a stage-scoped path for one stage.
fn eval_stage_path_exec(
    m: &DockerfileModel,
    ov: &Overrides,
    strict: bool,
    si: usize,
    segs: &Vec<Segment>,
    i: usize,
    path: &str,
    meta: &mut EvalMeta,
) -> (r: Result<Value, Error>)
    requires
        i <= segs@.len(),
    ensures
        match r {
            Ok(v) => spec_eval_stage_path(
                Ctx { m: *m, ov: ov@, strict },
                si as int,
                segs_view(segs@),
                i as int,
                path@,
                old(meta)@,
            ) == Ok::<(ValueModel, MetaModel), ErrorModel>((v@, final(meta)@)),
            Err(e) => spec_eval_stage_path(
                Ctx { m: *m, ov: ov@, strict },
                si as int,
                segs_view(segs@),
                i as int,
                path@,
                old(meta)@,
            ) == Err::<(ValueModel, MetaModel), ErrorModel>(e@) && (e@ is NotFound
                ==> final(meta)@ == old(meta)@),
        },
{
    if si >= m.stages.len() {
        return Err(Error::not_found(path));
    }
    let st = &m.stages[si];
    if i >= segs.len() {
        return stage_object_exec(m, ov, strict, si, st, meta);
    }
    proof {
        assert(segs_view(segs@)[i as int] == segs@[i as int]@);
    }
    match &segs[i] {
        Segment::Ident(f) => {
            if str_eq(f.as_str(), "NAME") {
                if segs.len() - i != 1 {
                    return Err(Error::not_found(path));
                }
                return match &st.name {
                    Some(n) => Ok(Value::String(n.clone())),
                    None => Ok(Value::Null),
                };
            }
            if str_eq(f.as_str(), "ARG") {
                return eval_arg_table_exec(
                    m,
                    ov,
                    strict,
                    &st.arg_defaults,
                    RScope::Stage(si),
                    segs,
                    i + 1,
                    path,
                    meta,
                );
            }
            if str_eq(f.as_str(), "PARENT") {
                if segs.len() - i != 2 {
                    return Err(Error::not_found(path));
                }
                proof {
                    assert(segs_view(segs@)[i + 1] == segs@[i + 1]@);
                }
                return match &segs[i + 1] {
                    Segment::Ident(pf) => {
                        if str_eq(pf.as_str(), "RAW") {
                            Ok(Value::String(parent_raw_exec(&st.parent)))
                        } else if str_eq(pf.as_str(), "RESOLVED") {
                            match resolve_parent_exec(m, ov, strict, st, meta) {
                                Ok(s) => Ok(Value::String(s)),
                                Err(e) => Err(e),
                            }
                        } else if str_eq(pf.as_str(), "KIND") {
                            Ok(Value::String(parent_kind_exec(&st.parent)))
                        } else if str_eq(pf.as_str(), "STAGE") {
                            match &st.parent {
                                Parent::StageRef(target) => Ok(Value::String(target.clone())),
                                _ => Err(Error::not_found(path)),
                            }
                        } else {
                            Err(Error::not_found(path))
                        }
                    },
                    _ => Err(Error::not_found(path)),
                };
            }
            if str_eq(f.as_str(), "INSTRUCTIONS") {
                if segs.len() - (i + 1) != 1 {
                    return Err(Error::not_found(path));
                }
                proof {
                    assert(segs_view(segs@)[i + 1] == segs@[i + 1]@);
                }
                return match &segs[i + 1] {
                    Segment::Ident(cf) => {
                        if str_eq(cf.as_str(), "COUNT") {
                            #[verifier::truncate]
                            let n = st.instructions.len() as i64;
                            Ok(Value::Number(n))
                        } else {
                            Err(Error::not_found(path))
                        }
                    },
                    _ => Err(Error::not_found(path)),
                };
            }
            Err(Error::not_found(path))
        },
        Segment::Indexed { ident, index } => {
            if !str_eq(ident.as_str(), "INSTRUCTIONS") {
                return Err(Error::not_found(path));
            }
            let n = match index {
                Index::Position(n) => *n,
                _ => {
                    return Err(Error::not_found(path));
                },
            };
            if n >= st.instructions.len() {
                return Err(Error::not_found(path));
            }
            if segs.len() - (i + 1) != 1 {
                return Err(Error::not_found(path));
            }
            proof {
                assert(segs_view(segs@)[i + 1] == segs@[i + 1]@);
            }
            match &segs[i + 1] {
                Segment::Ident(inf) => {
                    if str_eq(inf.as_str(), "RAW") {
                        Ok(Value::String(st.instructions[n].raw.clone()))
                    } else if str_eq(inf.as_str(), "KEYWORD") {
                        Ok(Value::String(st.instructions[n].keyword.clone()))
                    } else if str_eq(inf.as_str(), "SPAN") {
                        Ok(span_value(st.instructions[n].start_line, st.instructions[n].end_line))
                    } else {
                        Err(Error::not_found(path))
                    }
                },
                _ => Err(Error::not_found(path)),
            }
        },
        Segment::Function { ident, args } => {
            if !str_eq(ident.as_str(), "RESOLVE") {
                return Err(Error::not_found(path));
            }
            if segs.len() - i != 1 {
                return Err(Error::not_found(path));
            }
            if args.len() != 1 {
                return Err(Error::eval("RESOLVE requires exactly one argument"));
            }
            proof {
                assert(args_view(args@)[0] == args@[0]@);
            }
            match &args[0] {
                Arg::String(input) => {
                    match rt_exec(m, ov, strict, RScope::Stage(si), input.as_str(), meta) {
                        Ok(out) => Ok(Value::String(out)),
                        Err(e) => Err(e),
                    }
                },
                _ => Err(Error::eval("RESOLVE argument must be a string literal")),
            }
        },
    }
}

/// The stage indices a selector picks.
fn select_stage_indices(m: &DockerfileModel, index: &Index, path: &str) -> (r: Result<
    Vec<usize>,
    Error,
>)
    ensures
        match r {
            Ok(sel) => spec_select_stages(*m, index@, path@) matches Ok(spec_sel) && sel@.len()
                == spec_sel.len() && (forall|j: int| 0 <= j < sel@.len() ==> spec_sel[j]
                == #[trigger] sel@[j] as int) && sel@.len() >= (
            if index@ is Key {
                1int
            } else {
                0int
            }),
            Err(e) => spec_select_stages(*m, index@, path@) matches Err(em) && e@ == em,
        },
{
    match index {
        Index::Position(n) => {
            if *n >= m.stages.len() {
                return Err(Error::not_found(path));
            }
            let mut sel: Vec<usize> = Vec::new();
            sel.push(*n);
            Ok(sel)
        },
        Index::Wildcard => {
            let mut sel: Vec<usize> = Vec::new();
            let mut k: usize = 0;
            while k < m.stages.len()
                invariant
                    k <= m.stages@.len(),
                    sel@.len() == k,
                    forall|j: int| 0 <= j < k ==> #[trigger] sel@[j] == j,
                decreases m.stages@.len() - k,
            {
                sel.push(k);
                k += 1;
            }
            Ok(sel)
        },
        Index::Key(name) => {
            let mut matches_vec: Vec<usize> = Vec::new();
            let mut k: usize = 0;
            let ghost target = stage_name_matches(*m, 0, name@);
            proof {
                assert(iview(matches_vec@) =~= Seq::<int>::empty());
            }
            while k < m.stages.len()
                invariant
                    k <= m.stages@.len(),
                    target == stage_name_matches(*m, 0, name@),
                    target == iview(matches_vec@) + stage_name_matches(*m, k as int, name@),
                    forall|j: int| 0 <= j < matches_vec@.len() ==> #[trigger] matches_vec@[
                        j
                    ] < m.stages@.len(),
                decreases m.stages@.len() - k,
            {
                let is_match = match &m.stages[k].name {
                    Some(n) => str_eq(n.as_str(), name.as_str()),
                    None => false,
                };
                if is_match {
                    let ghost prev = matches_vec@;
                    matches_vec.push(k);
                    proof {
                        assert(iview(matches_vec@) =~= iview(prev).push(k as int));
                        assert(iview(prev) + (seq![k as int] + stage_name_matches(
                            *m,
                            k + 1,
                            name@,
                        )) =~= iview(prev).push(k as int) + stage_name_matches(
                            *m,
                            k + 1,
                            name@,
                        ));
                    }
                }
                k += 1;
            }
            proof {
                assert(stage_name_matches(*m, m.stages@.len() as int, name@)
                    =~= Seq::<int>::empty());
                assert(iview(matches_vec@) + Seq::<int>::empty() =~= iview(matches_vec@));
            }
            if matches_vec.len() == 0 {
                return Err(Error::not_found(path));
            }
            if matches_vec.len() > 1 {
                let mut msg: Vec<char> = Vec::new();
                append_str(&mut msg, "stage selector \"");
                append_str(&mut msg, name.as_str());
                append_str(&mut msg, "\" is ambiguous (");
                let digits = dec_chars_u64(matches_vec.len() as u64);
                append_chars(&mut msg, &digits);
                append_str(&mut msg, " matches)");
                proof {
                    assert(spec_dec_int(matches_vec@.len() as int) == spec_dec_nat(
                        matches_vec@.len() as nat,
                    ));
                    assert(msg@ =~= ambiguous_msg(name@, matches_vec@.len() as int));
                }
                return Err(Error::Eval { msg: chars_to_string(&msg) });
            }
            Ok(matches_vec)
        },
    }
}

/// The sequence of positions, as mathematical integers.
spec fn iview(v: Seq<usize>) -> Seq<int> {
    Seq::new(v.len(), |i: int| v[i] as int)
}

/// The stage summaries of every stage; any failure aborts.
fn stage_all_exec(
    m: &DockerfileModel,
    ov: &Overrides,
    strict: bool,
    meta: &mut EvalMeta,
) -> (r: Result<Value, Error>)
    ensures
        match r {
            Ok(v) => spec_stage_all(Ctx { m: *m, ov: ov@, strict }, 0, Seq::empty(), old(meta)@)
                == Ok::<(ValueModel, MetaModel), ErrorModel>((v@, final(meta)@)),
            Err(e) => spec_stage_all(Ctx { m: *m, ov: ov@, strict }, 0, Seq::empty(), old(meta)@)
                == Err::<(ValueModel, MetaModel), ErrorModel>(e@),
        },
{
    let ghost ctx = Ctx { m: *m, ov: ov@, strict };
    let ghost meta0 = meta@;
    let mut values: Vec<Value> = Vec::new();
    let mut si: usize = 0;
    proof {
        assert(vms_of(values@) =~= Seq::<ValueModel>::empty());
    }
    while si < m.stages.len()
        invariant
            si <= m.stages@.len(),
            ctx == (Ctx { m: *m, ov: ov@, strict }),
            meta0 == old(meta)@,
            spec_stage_all(ctx, 0, Seq::empty(), meta0) == spec_stage_all(
                ctx,
                si as int,
                vms_of(values@),
                meta@,
            ),
        decreases m.stages@.len() - si,
    {
        let v = match stage_object_exec(m, ov, strict, si, &m.stages[si], meta) {
            Ok(v) => v,
            Err(e) => {
                return Err(e);
            },
        };
        let ghost prev = values@;
        values.push(v);
        proof {
            crate::value::lemma_vms_push(prev, values@, values@[prev.len() as int]);
        }
        si += 1;
    }
    Ok(Value::Array(values))
}

/// Maps a stage path across the selected stages, degrading per-stage
/// NotFound results to nulls with recorded paths.
fn stage_map_exec(
    m: &DockerfileModel,
    ov: &Overrides,
    strict: bool,
    selected: &Vec<usize>,
    segs: &Vec<Segment>,
    i: usize,
    meta: &mut EvalMeta,
) -> (r: Result<Value, Error>)
    requires
        i <= segs@.len(),
    ensures
        match r {
            Ok(v) => spec_stage_map(
                Ctx { m: *m, ov: ov@, strict },
                iview(selected@),
                segs_view(segs@),
                i as int,
                0,
                Seq::empty(),
                old(meta)@,
            ) == Ok::<(ValueModel, MetaModel), ErrorModel>((v@, final(meta)@)),
            Err(e) => spec_stage_map(
                Ctx { m: *m, ov: ov@, strict },
                iview(selected@),
                segs_view(segs@),
                i as int,
                0,
                Seq::empty(),
                old(meta)@,
            ) == Err::<(ValueModel, MetaModel), ErrorModel>(e@),
        },
{
    let ghost ctx = Ctx { m: *m, ov: ov@, strict };
    let ghost sel = iview(selected@);
    let ghost sv = segs_view(segs@);
    let ghost meta0 = meta@;
    let mut values: Vec<Value> = Vec::new();
    let mut k: usize = 0;
    proof {
        assert(vms_of(values@) =~= Seq::<ValueModel>::empty());
    }
    while k < selected.len()
        invariant
            k <= selected@.len(),
            i <= segs@.len(),
            ctx == (Ctx { m: *m, ov: ov@, strict }),
            sel == iview(selected@),
            sv == segs_view(segs@),
            meta0 == old(meta)@,
            spec_stage_map(ctx, sel, sv, i as int, 0, Seq::empty(), meta0) == spec_stage_map(
                ctx,
                sel,
                sv,
                i as int,
                k as int,
                vms_of(values@),
                meta@,
            ),
        decreases selected@.len() - k,
    {
        let si = selected[k];
        let stage_path = element_path("STAGE[", si, segs, i);
        proof {
            assert(sel[k as int] == si as int);
            assert(stage_path@ == spec_stage_path(sel[k as int], sv, i as int));
        }
        match eval_stage_path_exec(m, ov, strict, si, segs, i, stage_path.as_str(), meta) {
            Ok(v) => {
                let ghost prev = values@;
                values.push(v);
                proof {
                    crate::value::lemma_vms_push(prev, values@, values@[prev.len() as int]);
                }
            },
            Err(e) => {
                if matches!(e, Error::NotFound { .. }) {
                    let ghost prev = values@;
                    values.push(Value::Null);
                    let ghost meta_prev = meta@;
                    meta.missing_paths.push(stage_path);
                    proof {
                        crate::value::lemma_vms_push(prev, values@, values@[prev.len() as int]);
                        assert(vms_of(values@) == vms_of(prev).push(ValueModel::Null));
                        assert(strs_view(meta.missing_paths@) =~= meta_prev.missing_paths.push(
                            spec_stage_path(sel[k as int], sv, i as int),
                        ));
                        assert(meta@ == meta_path(
                            meta_prev,
                            spec_stage_path(sel[k as int], sv, i as int),
                        ));
                    }
                } else {
                    return Err(e);
                }
            },
        }
        k += 1;
    }
    Ok(Value::Array(values))
}

/// One evaluation pass over a document: borrows the document and the
/// override map read-only and evaluates one query at a time.
pub struct Evaluator<'a> {
    pub model: &'a DockerfileModel,
    pub overrides: &'a Overrides,
    pub strict: bool,
}

impl<'a> Evaluator<'a> {
    pub fn new(model: &'a DockerfileModel, overrides: &'a Overrides, strict: bool) -> (r: Self)
        ensures
            r.model == model,
            r.overrides == overrides,
            r.strict == strict,
    {
        Self { model, overrides, strict }
    }

    /// Evaluates one query against the document, yielding the structured
    /// value and its metadata, exactly as `spec_evaluate` gives them. The
    /// value is well-formed: every object in it keeps sorted, unique keys.
    pub fn evaluate(&self, query: &Query) -> (r: Result<EvalResult, Error>)
        ensures
            match r {
                Ok(res) => spec_evaluate(
                    *self.model,
                    self.overrides@,
                    self.strict,
                    query.source@,
                    segs_view(query.segments@),
                ) == Ok::<(ValueModel, MetaModel), ErrorModel>((res.value@, res.meta@))
                    && crate::value::vm_wf(res.value@),
                Err(e) => spec_evaluate(
                    *self.model,
                    self.overrides@,
                    self.strict,
                    query.source@,
                    segs_view(query.segments@),
                ) == Err::<(ValueModel, MetaModel), ErrorModel>(e@),
            },
    {
        proof {
            crate::laws::lemma_evaluate_value_wf(
                *self.model,
                self.overrides@,
                self.strict,
                query.source@,
                segs_view(query.segments@),
            );
        }
        self.evaluate_inner(query)
    }

    fn evaluate_inner(&self, query: &Query) -> (r: Result<EvalResult, Error>)
        ensures
            match r {
                Ok(res) => spec_evaluate(
                    *self.model,
                    self.overrides@,
                    self.strict,
                    query.source@,
                    segs_view(query.segments@),
                ) == Ok::<(ValueModel, MetaModel), ErrorModel>((res.value@, res.meta@)),
                Err(e) => spec_evaluate(
                    *self.model,
                    self.overrides@,
                    self.strict,
                    query.source@,
                    segs_view(query.segments@),
                ) == Err::<(ValueModel, MetaModel), ErrorModel>(e@),
            },
    {
        let m = self.model;
        let ov = self.overrides;
        let strict = self.strict;
        let segs = &query.segments;
        let source = query.source.as_str();
        if segs.len() == 0 {
            return Err(Error::query_parse("empty query", None));
        }
        proof {
            assert(segs_view(segs@)[0] == segs@[0]@);
        }
        match &segs[0] {
            Segment::Ident(kw) => {
                if str_eq(kw.as_str(), "ARG") {
                    let mut meta = EvalMeta::new(Scope::Global);
                    match eval_arg_table_exec(
                        m,
                        ov,
                        strict,
                        &m.global_args,
                        RScope::Global,
                        segs,
                        1,
                        source,
                        &mut meta,
                    ) {
                        Ok(value) => Ok(EvalResult { value, meta }),
                        Err(e) => Err(e),
                    }
                } else if str_eq(kw.as_str(), "FROM") {
                    if segs.len() > 1 {
                        return Err(Error::not_found(source));
                    }
                    let mut meta = EvalMeta::new(Scope::Global);
                    match from_all_exec(m, ov, strict, segs, 1, &mut meta, source) {
                        Ok(value) => Ok(EvalResult { value, meta }),
                        Err(e) => Err(e),
                    }
                } else if str_eq(kw.as_str(), "RUN") {
                    let entries = collect_run_entries(m);
                    let mut meta = EvalMeta::new(Scope::Global);
                    match eval_run_collection_exec(
                        m,
                        ov,
                        strict,
                        &entries,
                        segs,
                        1,
                        source,
                        &mut meta,
                    ) {
                        Ok(value) => Ok(EvalResult { value, meta }),
                        Err(e) => Err(e),
                    }
                } else if str_eq(kw.as_str(), "STAGE") {
                    if segs.len() > 1 {
                        return Err(Error::not_found(source));
                    }
                    let mut meta = EvalMeta::new(Scope::Global);
                    match stage_all_exec(m, ov, strict, &mut meta) {
                        Ok(value) => Ok(EvalResult { value, meta }),
                        Err(e) => Err(e),
                    }
                } else {
                    Err(Error::not_found(source))
                }
            },
            Segment::Indexed { ident, index } => {
                if str_eq(ident.as_str(), "FROM") {
                    match index {
                        Index::Position(n) => {
                            if *n >= m.stages.len() {
                                return Err(Error::not_found(source));
                            }
                            let mut meta = EvalMeta::new(Scope::Global);
                            match from_stage_exec(
                                m,
                                ov,
                                strict,
                                &m.stages[*n],
                                segs,
                                1,
                                &mut meta,
                                source,
                            ) {
                                Ok(value) => Ok(EvalResult { value, meta }),
                                Err(e) => Err(e),
                            }
                        },
                        Index::Wildcard => {
                            let mut meta = EvalMeta::new(Scope::Global);
                            match from_all_exec(m, ov, strict, segs, 1, &mut meta, source) {
                                Ok(value) => Ok(EvalResult { value, meta }),
                                Err(e) => Err(e),
                            }
                        },
                        Index::Key(_) => Err(Error::not_found(source)),
                    }
                } else if str_eq(ident.as_str(), "RUN") {
                    match index {
                        Index::Position(n) => {
                            let entries = collect_run_entries(m);
                            if *n >= entries.len() {
                                return Err(Error::not_found(source));
                            }
                            let meta = EvalMeta::new(Scope::Global);
                            proof {
                                assert(res_view(entries@)[*n as int] == re_view(entries@[
                                    *n as int
                                ]));
                            }
                            match eval_run_entry_exec(&entries[*n], segs, 1, source) {
                                Ok(value) => Ok(EvalResult { value, meta }),
                                Err(e) => Err(e),
                            }
                        },
                        Index::Wildcard => {
                            let entries = collect_run_entries(m);
                            let mut meta = EvalMeta::new(Scope::Global);
                            match eval_run_collection_exec(
                                m,
                                ov,
                                strict,
                                &entries,
                                segs,
                                1,
                                source,
                                &mut meta,
                            ) {
                                Ok(value) => Ok(EvalResult { value, meta }),
                                Err(e) => Err(e),
                            }
                        },
                        Index::Key(_) => Err(Error::not_found(source)),
                    }
                } else if str_eq(ident.as_str(), "STAGE") {
                    let selected = match select_stage_indices(m, index, source) {
                        Ok(sel) => sel,
                        Err(e) => {
                            return Err(e);
                        },
                    };
                    proof {
                        assert(iview(selected@) =~= spec_select_stages(
                            *m,
                            index@,
                            source@,
                        )->Ok_0);
                    }
                    match index {
                        Index::Wildcard => {
                            let mut meta = EvalMeta::new(Scope::StageWildcard);
                            match stage_map_exec(m, ov, strict, &selected, segs, 1, &mut meta) {
                                Ok(value) => Ok(EvalResult { value, meta }),
                                Err(e) => Err(e),
                            }
                        },
                        Index::Position(n) => {
                            let mut meta = EvalMeta::new(Scope::Stage(*n));
                            match eval_stage_path_exec(
                                m,
                                ov,
                                strict,
                                *n,
                                segs,
                                1,
                                source,
                                &mut meta,
                            ) {
                                Ok(value) => Ok(EvalResult { value, meta }),
                                Err(e) => Err(e),
                            }
                        },
                        Index::Key(_) => {
                            let si = selected[0];
                            proof {
                                assert(iview(selected@)[0] == si as int);
                            }
                            let mut meta = EvalMeta::new(Scope::Stage(si));
                            match eval_stage_path_exec(
                                m,
                                ov,
                                strict,
                                si,
                                segs,
                                1,
                                source,
                                &mut meta,
                            ) {
                                Ok(value) => Ok(EvalResult { value, meta }),
                                Err(e) => Err(e),
                            }
                        },
                    }
                } else {
                    Err(Error::not_found(source))
                }
            },
            Segment::Function { ident, args } => {
                if !str_eq(ident.as_str(), "RESOLVE") {
                    return Err(Error::not_found(source));
                }
                if segs.len() > 1 {
                    return Err(Error::not_found(source));
                }
                if args.len() != 1 {
                    return Err(Error::eval("RESOLVE requires exactly one argument"));
                }
                proof {
                    assert(args_view(args@)[0] == args@[0]@);
                }
                match &args[0] {
                    Arg::String(input) => {
                        let mut meta = EvalMeta::new(Scope::Global);
                        match rt_exec(m, ov, strict, RScope::Global, input.as_str(), &mut meta) {
                            Ok(out) => Ok(EvalResult { value: Value::String(out), meta }),
                            Err(e) => Err(e),
                        }
                    },
                    _ => Err(Error::eval("RESOLVE argument must be a string literal")),
                }
            },
        }
    }
}

} // verus!
