//! The structured result type: a null/bool/number/string/array/object tree
//! with deterministic, key-sorted objects and canonical JSON rendering.

use vstd::prelude::*;

use crate::text::{
    chars_lt, chars_to_string, dec_chars_i64, spec_dec_int, append_chars, append_str, str_eq,
    str_lt,
};

verus! {

/// The mathematical shape of a [`Value`]: what the contracts speak about.
pub enum ValueModel {
    Null,
    Bool(bool),
    Number(int),
    String(Seq<char>),
    Array(Seq<ValueModel>),
    Object(Seq<(Seq<char>, ValueModel)>),
}

/// A structured evaluation result.
///
/// Object entries are kept sorted by key (strict lexicographic order by
/// code point), so rendering an object is deterministic.
#[derive(Debug)]
pub enum Value {
    Null,
    Bool(bool),
    Number(i64),
    String(String),
    Array(Vec<Value>),
    Object(Vec<(String, Value)>),
}

/// The model of a [`Value`]: strings become character sequences, vectors
/// become sequences, numbers become unbounded integers.
pub open spec fn vm_of(v: Value) -> ValueModel
    decreases v,
        via vm_of_dec
{
    match v {
        Value::Null => ValueModel::Null,
        Value::Bool(b) => ValueModel::Bool(b),
        Value::Number(n) => ValueModel::Number(n as int),
        Value::String(s) => ValueModel::String(s@),
        Value::Array(items) => ValueModel::Array(vms_of(items@)),
        Value::Object(pairs) => ValueModel::Object(vm_pairs_of(pairs@)),
    }
}

/// The models of a sequence of values, element by element.
pub open spec fn vms_of(s: Seq<Value>) -> Seq<ValueModel>
    decreases s,
{
    if s.len() == 0 {
        Seq::empty()
    } else {
        seq![vm_of(s[0])] + vms_of(s.subrange(1, s.len() as int))
    }
}

/// The models of a sequence of object entries, element by element.
pub open spec fn vm_pairs_of(ps: Seq<(String, Value)>) -> Seq<(Seq<char>, ValueModel)>
    decreases ps,
        via vm_pairs_of_dec
{
    if ps.len() == 0 {
        Seq::empty()
    } else {
        seq![(ps[0].0@, vm_of(ps[0].1))] + vm_pairs_of(ps.subrange(1, ps.len() as int))
    }
}

#[via_fn]
proof fn vm_of_dec(v: Value) {
    match v {
        Value::Array(items) => {
            assert(decreases_to!(v => items));
            assert(decreases_to!(items => items@));
        },
        Value::Object(pairs) => {
            assert(decreases_to!(v => pairs));
            assert(decreases_to!(pairs => pairs@));
        },
        _ => {},
    }
}

#[via_fn]
proof fn vm_pairs_of_dec(ps: Seq<(String, Value)>) {
    if ps.len() > 0 {
        assert(decreases_to!(ps => ps[0]));
        assert(decreases_to!(ps[0] => ps[0].1));
    }
}

/// `vms_of` maps `vm_of` over the sequence.
pub proof fn lemma_vms_of(s: Seq<Value>)
    ensures
        vms_of(s).len() == s.len(),
        forall|i: int| 0 <= i < s.len() ==> vms_of(s)[i] == vm_of(#[trigger] s[i]),
    decreases s.len(),
{
    if s.len() > 0 {
        let tail = s.subrange(1, s.len() as int);
        lemma_vms_of(tail);
        assert forall|i: int| 0 <= i < s.len() implies vms_of(s)[i] == vm_of(s[i]) by {
            if i > 0 {
                assert(vms_of(s)[i] == vms_of(tail)[i - 1]);
                assert(tail[i - 1] == s[i]);
            }
        }
    }
}

/// `vm_pairs_of` maps key view and `vm_of` over the entries.
pub proof fn lemma_vm_pairs_of(ps: Seq<(String, Value)>)
    ensures
        vm_pairs_of(ps).len() == ps.len(),
        forall|i: int| 0 <= i < ps.len() ==> vm_pairs_of(ps)[i] == ((#[trigger] ps[i]).0@,
            vm_of(ps[i].1)),
    decreases ps.len(),
{
    if ps.len() > 0 {
        let tail = ps.subrange(1, ps.len() as int);
        lemma_vm_pairs_of(tail);
        assert forall|i: int| 0 <= i < ps.len() implies vm_pairs_of(ps)[i] == (ps[i].0@, vm_of(
            ps[i].1,
        )) by {
            if i > 0 {
                assert(vm_pairs_of(ps)[i] == vm_pairs_of(tail)[i - 1]);
                assert(tail[i - 1] == ps[i]);
            }
        }
    }
}

impl View for Value {
    type V = ValueModel;

    open spec fn view(&self) -> ValueModel {
        vm_of(*self)
    }
}

/// Pushing a value onto a vector pushes its model.
pub proof fn lemma_vms_push(prev: Seq<Value>, cur: Seq<Value>, x: Value)
    requires
        cur == prev.push(x),
    ensures
        vms_of(cur) == vms_of(prev).push(vm_of(x)),
{
    lemma_vms_of(prev);
    lemma_vms_of(cur);
    assert forall|j: int| 0 <= j < cur.len() implies vms_of(cur)[j] == vms_of(prev).push(
        vm_of(x),
    )[j] by {
        assert(vms_of(cur)[j] == vm_of(cur[j]));
        if j < prev.len() {
            assert(cur[j] == prev[j]);
            assert(vms_of(prev)[j] == vm_of(prev[j]));
        } else {
            assert(cur[j] == x);
        }
    }
    assert(vms_of(cur) =~= vms_of(prev).push(vm_of(x)));
}

/// Object entries sorted strictly by key: deterministic order, unique keys.
pub open spec fn obj_sorted(ps: Seq<(Seq<char>, ValueModel)>) -> bool {
    forall|i: int, j: int| 0 <= i < j < ps.len() ==> chars_lt(ps[i].0, ps[j].0)
}

/// Every object in the tree has sorted, unique keys.
pub open spec fn vm_wf(v: ValueModel) -> bool
    decreases v,
{
    match v {
        ValueModel::Array(items) => forall|i: int|
            0 <= i < items.len() ==> vm_wf(#[trigger] items[i]),
        ValueModel::Object(ps) => obj_sorted(ps) && forall|i: int|
            0 <= i < ps.len() ==> vm_wf(#[trigger] (ps[i].1)),
        _ => true,
    }
}

/// A scalar: a value with no children.
pub open spec fn vm_is_scalar(v: ValueModel) -> bool {
    match v {
        ValueModel::Null | ValueModel::Bool(_) | ValueModel::Number(_)
            | ValueModel::String(_) => true,
        ValueModel::Array(_) | ValueModel::Object(_) => false,
    }
}

/// Inserting into a sorted object: keeps order, replaces on an equal key.
pub open spec fn spec_obj_insert(
    ps: Seq<(Seq<char>, ValueModel)>,
    k: Seq<char>,
    v: ValueModel,
) -> Seq<(Seq<char>, ValueModel)>
    decreases ps.len(),
{
    if ps.len() == 0 {
        seq![(k, v)]
    } else if chars_lt(k, ps[0].0) {
        seq![(k, v)] + ps
    } else if k == ps[0].0 {
        seq![(k, v)] + ps.skip(1)
    } else {
        seq![ps[0]] + spec_obj_insert(ps.skip(1), k, v)
    }
}

/// The view of a vector of object entries.
pub open spec fn pairs_view(ps: Seq<(String, Value)>) -> Seq<(Seq<char>, ValueModel)> {
    vm_pairs_of(ps)
}

/// How `spec_obj_insert` splits around the insertion point.
proof fn lemma_obj_insert_split(
    ps: Seq<(Seq<char>, ValueModel)>,
    k: Seq<char>,
    v: ValueModel,
    p: int,
)
    requires
        0 <= p <= ps.len(),
        forall|j: int| 0 <= j < p ==> chars_lt(ps[j].0, k),
    ensures
        p < ps.len() && k == ps[p].0 ==> spec_obj_insert(ps, k, v) == ps.subrange(0, p)
            + seq![(k, v)] + ps.skip(p + 1),
        (p == ps.len() || chars_lt(k, ps[p].0)) ==> spec_obj_insert(ps, k, v) == ps.subrange(
            0,
            p,
        ) + seq![(k, v)] + ps.skip(p),
    decreases p,
{
    if p == 0 {
        if ps.len() > 0 && k == ps[0].0 {
            assert(!chars_lt(k, ps[0].0)) by {
                crate::text::lemma_chars_lt_trichotomy(k, ps[0].0);
            }
            assert(spec_obj_insert(ps, k, v) =~= ps.subrange(0, 0) + seq![(k, v)] + ps.skip(1));
        }
        if p == ps.len() || chars_lt(k, ps[p].0) {
            assert(spec_obj_insert(ps, k, v) =~= ps.subrange(0, 0) + seq![(k, v)] + ps.skip(0));
        }
    } else {
        assert(chars_lt(ps[0].0, k));
        assert(!chars_lt(k, ps[0].0) && k != ps[0].0) by {
            crate::text::lemma_chars_lt_trichotomy(k, ps[0].0);
        }
        let tail = ps.skip(1);
        assert(forall|j: int| 0 <= j < p - 1 ==> chars_lt(#[trigger] tail[j].0, k));
        lemma_obj_insert_split(tail, k, v, p - 1);
        if p < ps.len() && k == ps[p].0 {
            assert(tail[p - 1].0 == k);
            assert(spec_obj_insert(ps, k, v) =~= ps.subrange(0, p) + seq![(k, v)] + ps.skip(
                p + 1,
            )) by {
                assert(spec_obj_insert(tail, k, v) == tail.subrange(0, p - 1) + seq![(k, v)]
                    + tail.skip(p));
            }
        }
        if p == ps.len() || chars_lt(k, ps[p].0) {
            assert(spec_obj_insert(ps, k, v) =~= ps.subrange(0, p) + seq![(k, v)] + ps.skip(
                p,
            )) by {
                assert(spec_obj_insert(tail, k, v) == tail.subrange(0, p - 1) + seq![(k, v)]
                    + tail.skip(p - 1));
            }
        }
    }
}

/// Inserting keeps an object sorted; the key set only gains `k`.
pub proof fn lemma_obj_insert_sorted(
    ps: Seq<(Seq<char>, ValueModel)>,
    k: Seq<char>,
    v: ValueModel,
)
    requires
        obj_sorted(ps),
    ensures
        obj_sorted(spec_obj_insert(ps, k, v)),
        forall|i: int| 0 <= i < spec_obj_insert(ps, k, v).len() ==> (
            #[trigger] spec_obj_insert(ps, k, v)[i] == (k, v) || ps.contains(
                spec_obj_insert(ps, k, v)[i],
            )
        ),
    decreases ps.len(),
{
    crate::text::lemma_chars_lt_trichotomy(k, if ps.len() == 0 { Seq::empty() } else { ps[0].0 });
    let r = spec_obj_insert(ps, k, v);
    if ps.len() == 0 {
        assert(r =~= seq![(k, v)]);
    } else if chars_lt(k, ps[0].0) {
        assert forall|i: int, j: int| 0 <= i < j < r.len() implies chars_lt(r[i].0, r[j].0) by {
            if i == 0 {
                if j > 1 {
                    crate::text::lemma_chars_lt_trans(k, ps[0].0, ps[j - 1].0);
                }
            }
        }
        assert forall|i: int| 0 <= i < r.len() implies (r[i] == (k, v) || ps.contains(r[i])) by {
            if i > 0 {
                assert(ps[i - 1] == r[i]);
            }
        }
    } else if k == ps[0].0 {
        assert forall|i: int, j: int| 0 <= i < j < r.len() implies chars_lt(r[i].0, r[j].0) by {
            if i == 0 {
                assert(r[j] == ps[j]);
                assert(chars_lt(ps[0].0, ps[j].0));
            } else {
                assert(r[i] == ps[i] && r[j] == ps[j]);
            }
        }
        assert forall|i: int| 0 <= i < r.len() implies (r[i] == (k, v) || ps.contains(r[i])) by {
            if i > 0 {
                assert(ps[i] == r[i]);
            }
        }
    } else {
        let tail = ps.skip(1);
        assert forall|i: int, j: int| 0 <= i < j < tail.len() implies chars_lt(
            tail[i].0,
            tail[j].0,
        ) by {
            assert(tail[i] == ps[i + 1] && tail[j] == ps[j + 1]);
        }
        lemma_obj_insert_sorted(tail, k, v);
        let rt = spec_obj_insert(tail, k, v);
        assert(r =~= seq![ps[0]] + rt);
        assert forall|i: int, j: int| 0 <= i < j < r.len() implies chars_lt(r[i].0, r[j].0) by {
            if i == 0 {
                let y = rt[j - 1];
                assert(r[j] == y);
                if y == (k, v) {
                    assert(chars_lt(ps[0].0, k));
                } else {
                    assert(tail.contains(y));
                    let t = choose|t: int| 0 <= t < tail.len() && tail[t] == y;
                    assert(tail[t] == ps[t + 1]);
                    assert(chars_lt(ps[0].0, ps[t + 1].0));
                }
            } else {
                assert(r[i] == rt[i - 1] && r[j] == rt[j - 1]);
            }
        }
        assert forall|i: int| 0 <= i < r.len() implies (r[i] == (k, v) || ps.contains(r[i])) by {
            if i == 0 {
                assert(ps[0] == r[0]);
            } else {
                assert(r[i] == rt[i - 1]);
                if rt[i - 1] != (k, v) {
                    assert(tail.contains(rt[i - 1]));
                    let t = choose|t: int| 0 <= t < tail.len() && tail[t] == rt[i - 1];
                    assert(ps[t + 1] == rt[i - 1]);
                }
            }
        }
    }
}

/// Inserts an entry into a key-sorted entry list, replacing an equal key.
pub fn obj_insert(pairs: &mut Vec<(String, Value)>, key: String, val: Value)
    ensures
        pairs_view(final(pairs)@) == spec_obj_insert(pairs_view(old(pairs)@), key@, val@),
{
    let ghost ps0 = pairs_view(pairs@);
    let ghost gk = key@;
    let ghost gv = val@;
    proof {
        lemma_vm_pairs_of(pairs@);
    }
    let mut i: usize = 0;
    loop
        invariant
            i <= pairs@.len(),
            ps0 == pairs_view(old(pairs)@),
            pairs_view(pairs@) == ps0,
            ps0.len() == pairs@.len(),
            forall|k: int| 0 <= k < ps0.len() ==> #[trigger] ps0[k] == (
                pairs@[k].0@,
                vm_of(pairs@[k].1),
            ),
            gk == key@,
            gv == val@,
            forall|j: int| 0 <= j < i ==> chars_lt(#[trigger] ps0[j].0, gk),
        decreases pairs@.len() - i,
    {
        if i >= pairs.len() {
            proof {
                lemma_obj_insert_split(ps0, gk, gv, i as int);
            }
            let ghost pre = pairs@;
            pairs.push((key, val));
            proof {
                lemma_vm_pairs_of(pairs@);
                let rhs = ps0.subrange(0, ps0.len() as int) + seq![(gk, gv)]
                    + ps0.skip(ps0.len() as int);
                assert(pairs_view(pairs@).len() == rhs.len());
                assert forall|m: int| 0 <= m < rhs.len() implies pairs_view(pairs@)[m]
                    == rhs[m] by {
                    if m < ps0.len() {
                        assert(pairs@[m] == pre[m]);
                        assert(rhs[m] == ps0[m]);
                    } else {
                        assert(pairs@[m] == (key, val));
                    }
                }
                assert(pairs_view(pairs@) =~= rhs);
            }
            return;
        }
        let cmp_lt = str_lt(key.as_str(), pairs[i].0.as_str());
        proof {
            assert(ps0[i as int] == (pairs@[i as int].0@, vm_of(pairs@[i as int].1)));
        }
        if cmp_lt {
            proof {
                lemma_obj_insert_split(ps0, gk, gv, i as int);
            }
            let ghost pre = pairs@;
            pairs.insert(i, (key, val));
            proof {
                lemma_vm_pairs_of(pairs@);
                let rhs = ps0.subrange(0, i as int) + seq![(gk, gv)] + ps0.skip(i as int);
                assert(pairs_view(pairs@).len() == rhs.len());
                assert forall|m: int| 0 <= m < rhs.len() implies pairs_view(pairs@)[m]
                    == rhs[m] by {
                    if m < i as int {
                        assert(pairs@[m] == pre[m]);
                        assert(rhs[m] == ps0[m]);
                    } else if m == i as int {
                        assert(pairs@[m] == (key, val));
                    } else {
                        assert(pairs@[m] == pre[m - 1]);
                        assert(rhs[m] == ps0[m - 1]);
                    }
                }
                assert(pairs_view(pairs@) =~= rhs);
            }
            return;
        }
        let same = str_eq(key.as_str(), pairs[i].0.as_str());
        if same {
            proof {
                lemma_obj_insert_split(ps0, gk, gv, i as int);
            }
            let ghost pre = pairs@;
            pairs.remove(i);
            pairs.insert(i, (key, val));
            proof {
                lemma_vm_pairs_of(pairs@);
                let rhs = ps0.subrange(0, i as int) + seq![(gk, gv)] + ps0.skip(i + 1);
                assert(pairs_view(pairs@).len() == rhs.len());
                assert forall|m: int| 0 <= m < rhs.len() implies pairs_view(pairs@)[m]
                    == rhs[m] by {
                    if m < i as int {
                        assert(pairs@[m] == pre[m]);
                        assert(rhs[m] == ps0[m]);
                    } else if m == i as int {
                        assert(pairs@[m] == (key, val));
                    } else {
                        assert(pairs@[m] == pre[m]);
                        assert(rhs[m] == ps0[m]);
                    }
                }
                assert(pairs_view(pairs@) =~= rhs);
            }
            return;
        }
        proof {
            crate::text::lemma_chars_lt_trichotomy(gk, ps0[i as int].0);
        }
        i += 1;
    }
}


/// Inserting a well-formed value into a well-formed object keeps every
/// entry well-formed and the keys sorted.
pub proof fn lemma_obj_insert_wf(ps: Seq<(Seq<char>, ValueModel)>, k: Seq<char>, v: ValueModel)
    requires
        obj_sorted(ps),
        forall|i: int| 0 <= i < ps.len() ==> vm_wf(#[trigger] (ps[i].1)),
        vm_wf(v),
    ensures
        obj_sorted(spec_obj_insert(ps, k, v)),
        forall|i: int| 0 <= i < spec_obj_insert(ps, k, v).len() ==> vm_wf(
            #[trigger] (spec_obj_insert(ps, k, v)[i].1),
        ),
{
    lemma_obj_insert_sorted(ps, k, v);
    let r = spec_obj_insert(ps, k, v);
    assert forall|i: int| 0 <= i < r.len() implies vm_wf(r[i].1) by {
        if r[i] != (k, v) {
            assert(ps.contains(r[i]));
            let j = choose|j: int| 0 <= j < ps.len() && ps[j] == r[i];
            assert(vm_wf(ps[j].1));
        }
    }
}

/// The `kind` label of each value shape.
pub open spec fn spec_kind(v: ValueModel) -> Seq<char> {
    match v {
        ValueModel::Null => "null"@,
        ValueModel::Bool(_) => "boolean"@,
        ValueModel::Number(_) => "number"@,
        ValueModel::String(_) => "string"@,
        ValueModel::Array(_) => "array"@,
        ValueModel::Object(_) => "object"@,
    }
}

/// What a scalar renders to as plain text.
pub open spec fn spec_render_scalar(v: ValueModel) -> Option<Seq<char>> {
    match v {
        ValueModel::Null => Some(Seq::empty()),
        ValueModel::Bool(b) => Some(if b { "true"@ } else { "false"@ }),
        ValueModel::Number(n) => Some(spec_dec_int(n)),
        ValueModel::String(s) => Some(s),
        ValueModel::Array(_) | ValueModel::Object(_) => None,
    }
}

/// A hexadecimal digit, lower case.
pub open spec fn hex_digit(d: int) -> char {
    if d < 10 {
        crate::text::dec_digit(d)
    } else if d == 10 { 'a' }
    else if d == 11 { 'b' }
    else if d == 12 { 'c' }
    else if d == 13 { 'd' }
    else if d == 14 { 'e' }
    else { 'f' }
}

/// A control character in the JSON sense: code below 0x20, or 0x7f..0x9f.
pub open spec fn is_control_char(c: char) -> bool {
    (c as u32) < 32 || (127 <= c as u32 && c as u32 <= 159)
}

/// How one character appears inside a JSON string literal.
pub open spec fn spec_escape_char(c: char) -> Seq<char> {
    if c == '"' {
        seq!['\\', '"']
    } else if c == '\\' {
        seq!['\\', '\\']
    } else if c == '\n' {
        seq!['\\', 'n']
    } else if c == '\r' {
        seq!['\\', 'r']
    } else if c == '\t' {
        seq!['\\', 't']
    } else if c as u32 == 8 {
        seq!['\\', 'b']
    } else if c as u32 == 12 {
        seq!['\\', 'f']
    } else if is_control_char(c) {
        seq!['\\', 'u', '0', '0', hex_digit(c as u32 as int / 16), hex_digit(
            c as u32 as int % 16,
        )]
    } else {
        seq![c]
    }
}

pub open spec fn spec_escape(s: Seq<char>) -> Seq<char>
    decreases s.len(),
{
    if s.len() == 0 {
        Seq::empty()
    } else {
        spec_escape_char(s[0]) + spec_escape(s.skip(1))
    }
}

proof fn lemma_escape_append(a: Seq<char>, b: Seq<char>)
    ensures
        spec_escape(a + b) == spec_escape(a) + spec_escape(b),
    decreases a.len(),
{
    if a.len() == 0 {
        assert(a + b =~= b);
        assert(spec_escape(a) + spec_escape(b) =~= spec_escape(b));
    } else {
        assert((a + b).skip(1) =~= a.skip(1) + b);
        lemma_escape_append(a.skip(1), b);
        assert(spec_escape(a + b) =~= spec_escape(a) + spec_escape(b));
    }
}

/// The canonical JSON text of a value.
pub open spec fn spec_json(v: ValueModel) -> Seq<char>
    decreases v, 1int,
{
    match v {
        ValueModel::Null => "null"@,
        ValueModel::Bool(b) => if b { "true"@ } else { "false"@ },
        ValueModel::Number(n) => spec_dec_int(n),
        ValueModel::String(s) => seq!['"'] + spec_escape(s) + seq!['"'],
        ValueModel::Array(items) => seq!['['] + spec_json_items(items) + seq![']'],
        ValueModel::Object(ps) => seq!['{'] + spec_json_pairs(ps) + seq!['}'],
    }
}

pub open spec fn spec_json_items(items: Seq<ValueModel>) -> Seq<char>
    decreases items, 0int,
{
    if items.len() == 0 {
        Seq::empty()
    } else if items.len() == 1 {
        spec_json(items[0])
    } else {
        spec_json(items[0]) + seq![','] + spec_json_items(items.skip(1))
    }
}

pub open spec fn spec_json_pair(p: (Seq<char>, ValueModel)) -> Seq<char>
    decreases p, 0int,
{
    seq!['"'] + spec_escape(p.0) + seq!['"', ':'] + spec_json(p.1)
}

pub open spec fn spec_json_pairs(ps: Seq<(Seq<char>, ValueModel)>) -> Seq<char>
    decreases ps, 0int,
{
    if ps.len() == 0 {
        Seq::empty()
    } else if ps.len() == 1 {
        spec_json_pair(ps[0])
    } else {
        spec_json_pair(ps[0]) + seq![','] + spec_json_pairs(ps.skip(1))
    }
}

impl Value {
    /// Whether this value renders as a single scalar.
    pub fn is_scalar(&self) -> (r: bool)
        ensures
            r == vm_is_scalar(self@),
    {
        match self {
            Value::Null | Value::Bool(_) | Value::Number(_) | Value::String(_) => true,
            Value::Array(_) | Value::Object(_) => false,
        }
    }

    /// The kind label used in the JSON envelope.
    pub fn kind(&self) -> (r: &'static str)
        ensures
            r@ == spec_kind(self@),
    {
        match self {
            Value::Null => "null",
            Value::Bool(_) => "boolean",
            Value::Number(_) => "number",
            Value::String(_) => "string",
            Value::Array(_) => "array",
            Value::Object(_) => "object",
        }
    }

    /// The plain-text form of a scalar; `None` for arrays and objects.
    pub fn render_scalar(&self) -> (r: Option<String>)
        ensures
            r matches Some(s) ==> spec_render_scalar(self@) == Some(s@),
            r is None ==> spec_render_scalar(self@) is None,
    {
        match self {
            Value::Null => Some(String::new()),
            Value::Bool(b) => {
                if *b {
                    Some(String::from_str("true"))
                } else {
                    Some(String::from_str("false"))
                }
            },
            Value::Number(n) => {
                let digits = dec_chars_i64(*n);
                Some(chars_to_string(&digits))
            },
            Value::String(s) => Some(s.clone()),
            Value::Array(_) | Value::Object(_) => None,
        }
    }

    /// The element-wise text of an all-scalar array; `None` otherwise.
    pub fn render_scalar_array(&self) -> (r: Option<Vec<String>>)
        ensures
            r matches Some(items) ==> {
                &&& self@ matches ValueModel::Array(ms)
                &&& items@.len() == ms.len()
                &&& forall|i: int| 0 <= i < ms.len() ==> spec_render_scalar(#[trigger] ms[i])
                    == Some(items@[i]@)
            },
            r is None ==> match self@ {
                ValueModel::Array(ms) => exists|i: int| 0 <= i < ms.len() && !vm_is_scalar(
                    #[trigger] ms[i],
                ),
                _ => true,
            },
            r is None ==> !(self@ matches ValueModel::Array(ms) && forall|i: int|
                0 <= i < ms.len() ==> vm_is_scalar(#[trigger] ms[i])),
    {
        match self {
            Value::Array(values) => {
                let ghost ms = self@->Array_0;
                proof {
                    lemma_vms_of(values@);
                    assert(self@ == ValueModel::Array(ms));
                    assert(ms.len() == values@.len());
                }
                let mut out: Vec<String> = Vec::new();
                let mut i: usize = 0;
                while i < values.len()
                    invariant
                        i <= values@.len(),
                        ms.len() == values@.len(),
                        forall|k: int| 0 <= k < ms.len() ==> #[trigger] ms[k] == values@[k]@,
                        self@ == ValueModel::Array(ms),
                        out@.len() == i,
                        forall|j: int| 0 <= j < i ==> spec_render_scalar(#[trigger] ms[j])
                            == Some(out@[j]@),
                    decreases values@.len() - i,
                {
                    match values[i].render_scalar() {
                        Some(text) => {
                            out.push(text);
                        },
                        None => {
                            proof {
                                assert(!vm_is_scalar(ms[i as int]));
                            }
                            return None;
                        },
                    }
                    i += 1;
                }
                Some(out)
            },
            _ => None,
        }
    }

    /// The canonical JSON text of this value.
    pub fn to_json_string(&self) -> (r: String)
        ensures
            r@ == spec_json(self@),
    {
        let chars = self.json_chars();
        chars_to_string(&chars)
    }

    fn json_chars(&self) -> (r: Vec<char>)
        ensures
            r@ == spec_json(self@),
        decreases vm_of(*self),
    {
        match self {
            Value::Null => {
                let mut out: Vec<char> = Vec::new();
                append_str(&mut out, "null");
                proof {
                    assert(out@ =~= "null"@);
                }
                out
            },
            Value::Bool(b) => {
                let mut out: Vec<char> = Vec::new();
                if *b {
                    append_str(&mut out, "true");
                    proof {
                        assert(out@ =~= "true"@);
                    }
                } else {
                    append_str(&mut out, "false");
                    proof {
                        assert(out@ =~= "false"@);
                    }
                }
                out
            },
            Value::Number(n) => dec_chars_i64(*n),
            Value::String(s) => {
                let mut out: Vec<char> = Vec::new();
                out.push('"');
                escape_into(&mut out, s.as_str());
                out.push('"');
                proof {
                    assert(out@ =~= seq!['"'] + spec_escape(s@) + seq!['"']);
                }
                out
            },
            Value::Array(items) => {
                let ghost ms = self@->Array_0;
                proof {
                    lemma_vms_of(items@);
                    assert(self@ == ValueModel::Array(ms));
                }
                let mut out: Vec<char> = Vec::new();
                out.push('[');
                let mut i: usize = 0;
                while i < items.len()
                    invariant
                        i <= items@.len(),
                        ms.len() == items@.len(),
                        forall|k: int| 0 <= k < ms.len() ==> #[trigger] ms[k] == items@[k]@,
                        self@ == ValueModel::Array(ms),
                        out@ == seq!['['] + spec_json_items(ms.subrange(0, i as int)),
                    decreases items@.len() - i,
                {
                    if i > 0 {
                        out.push(',');
                    }
                    proof {
                        assert(self@ == ValueModel::Array(ms));
                        assert(decreases_to!(self@ => self@->Array_0));
                        assert(self@->Array_0 == ms);
                        assert(decreases_to!(ms => ms[i as int]));
                        assert(ms[i as int] == vm_of(items@[i as int]));
                    }
                    let piece = items[i].json_chars();
                    append_chars(&mut out, &piece);
                    proof {
                        lemma_json_items_snoc(ms.subrange(0, i as int), ms[i as int]);
                        assert(ms.subrange(0, i as int).push(ms[i as int]) =~= ms.subrange(
                            0,
                            i + 1,
                        ));
                        if i == 0 {
                            assert(out@ =~= seq!['['] + spec_json_items(ms.subrange(0, i + 1)));
                        } else {
                            assert(out@ =~= seq!['['] + spec_json_items(ms.subrange(0, i + 1)));
                        }
                    }
                    i += 1;
                }
                out.push(']');
                proof {
                    assert(ms.subrange(0, ms.len() as int) =~= ms);
                    assert(out@ =~= seq!['['] + spec_json_items(ms) + seq![']']);
                }
                out
            },
            Value::Object(pairs) => {
                let ghost ms = self@->Object_0;
                proof {
                    lemma_vm_pairs_of(pairs@);
                    assert(self@ == ValueModel::Object(ms));
                }
                let mut out: Vec<char> = Vec::new();
                out.push('{');
                let mut i: usize = 0;
                while i < pairs.len()
                    invariant
                        i <= pairs@.len(),
                        ms.len() == pairs@.len(),
                        forall|k: int| 0 <= k < ms.len() ==> #[trigger] ms[k] == (
                            pairs@[k].0@,
                            vm_of(pairs@[k].1),
                        ),
                        self@ == ValueModel::Object(ms),
                        out@ == seq!['{'] + spec_json_pairs(ms.subrange(0, i as int)),
                    decreases pairs@.len() - i,
                {
                    if i > 0 {
                        out.push(',');
                    }
                    out.push('"');
                    escape_into(&mut out, pairs[i].0.as_str());
                    out.push('"');
                    out.push(':');
                    proof {
                        assert(self@ == ValueModel::Object(ms));
                        assert(decreases_to!(self@ => self@->Object_0));
                        assert(self@->Object_0 == ms);
                        assert(decreases_to!(ms => ms[i as int]));
                        assert(decreases_to!(ms[i as int] => ms[i as int].1));
                        assert(ms[i as int].1 == vm_of(pairs@[i as int].1));
                    }
                    let piece = pairs[i].1.json_chars();
                    append_chars(&mut out, &piece);
                    proof {
                        lemma_json_pairs_snoc(ms.subrange(0, i as int), ms[i as int]);
                        assert(ms.subrange(0, i as int).push(ms[i as int]) =~= ms.subrange(
                            0,
                            i + 1,
                        ));
                        assert(out@ =~= seq!['{'] + spec_json_pairs(ms.subrange(0, i + 1)));
                    }
                    i += 1;
                }
                out.push('}');
                proof {
                    assert(ms.subrange(0, ms.len() as int) =~= ms);
                    assert(out@ =~= seq!['{'] + spec_json_pairs(ms) + seq!['}']);
                }
                out
            },
        }
    }
}

/// Rendering one more array element appends a comma (after the first) and
/// the element's own text.
proof fn lemma_json_items_snoc(items: Seq<ValueModel>, x: ValueModel)
    ensures
        items.len() == 0 ==> spec_json_items(items.push(x)) == spec_json(x),
        items.len() > 0 ==> spec_json_items(items.push(x)) == spec_json_items(items)
            + seq![','] + spec_json(x),
    decreases items.len(),
{
    let p = items.push(x);
    if items.len() == 0 {
        assert(p.len() == 1);
        assert(p[0] == x);
    } else {
        assert(p[0] == items[0]);
        assert(p.skip(1) =~= items.skip(1).push(x));
        lemma_json_items_snoc(items.skip(1), x);
        if items.len() == 1 {
            assert(items.skip(1).len() == 0);
            assert(spec_json_items(p) =~= spec_json_items(items) + seq![','] + spec_json(x));
        } else {
            assert(spec_json_items(p) =~= spec_json_items(items) + seq![','] + spec_json(x));
        }
    }
}

proof fn lemma_json_pairs_snoc(ps: Seq<(Seq<char>, ValueModel)>, x: (Seq<char>, ValueModel))
    ensures
        ps.len() == 0 ==> spec_json_pairs(ps.push(x)) == spec_json_pair(x),
        ps.len() > 0 ==> spec_json_pairs(ps.push(x)) == spec_json_pairs(ps) + seq![',']
            + spec_json_pair(x),
    decreases ps.len(),
{
    let p = ps.push(x);
    if ps.len() == 0 {
        assert(p.len() == 1);
        assert(p[0] == x);
    } else {
        assert(p[0] == ps[0]);
        assert(p.skip(1) =~= ps.skip(1).push(x));
        lemma_json_pairs_snoc(ps.skip(1), x);
        if ps.len() == 1 {
            assert(spec_json_pairs(p) =~= spec_json_pairs(ps) + seq![','] + spec_json_pair(x));
        } else {
            assert(spec_json_pairs(p) =~= spec_json_pairs(ps) + seq![','] + spec_json_pair(x));
        }
    }
}

/// Appends the JSON escape of every character of `s`.
fn escape_into(out: &mut Vec<char>, s: &str)
    ensures
        final(out)@ == old(out)@ + spec_escape(s@),
{
    let n = s.unicode_len();
    let mut i: usize = 0;
    while i < n
        invariant
            n == s@.len(),
            i <= n,
            out@ == old(out)@ + spec_escape(s@.subrange(0, i as int)),
        decreases n - i,
    {
        let c = s.get_char(i);
        let u = c as u32;
        if c == '"' {
            out.push('\\');
            out.push('"');
        } else if c == '\\' {
            out.push('\\');
            out.push('\\');
        } else if c == '\n' {
            out.push('\\');
            out.push('n');
        } else if c == '\r' {
            out.push('\\');
            out.push('r');
        } else if c == '\t' {
            out.push('\\');
            out.push('t');
        } else if u == 8 {
            out.push('\\');
            out.push('b');
        } else if u == 12 {
            out.push('\\');
            out.push('f');
        } else if u < 32 || (127 <= u && u <= 159) {
            out.push('\\');
            out.push('u');
            out.push('0');
            out.push('0');
            out.push(hex_digit_char(u / 16));
            out.push(hex_digit_char(u % 16));
        } else {
            out.push(c);
        }
        proof {
            assert(s@.subrange(0, i as int).push(s@[i as int]) =~= s@.subrange(0, i + 1));
            lemma_escape_snoc(s@.subrange(0, i as int), s@[i as int]);
            assert(out@ =~= old(out)@ + spec_escape(s@.subrange(0, i + 1)));
        }
        i += 1;
    }
    proof {
        assert(s@.subrange(0, s@.len() as int) =~= s@);
    }
}

proof fn lemma_escape_snoc(s: Seq<char>, c: char)
    ensures
        spec_escape(s.push(c)) == spec_escape(s) + spec_escape_char(c),
{
    lemma_escape_append(s, seq![c]);
    assert(s.push(c) =~= s + seq![c]);
    assert(spec_escape(seq![c]) =~= spec_escape_char(c)) by {
        assert(seq![c].skip(1).len() == 0);
        assert(spec_escape(seq![c]) == spec_escape_char(c) + spec_escape(seq![c].skip(1)));
    }
}

fn hex_digit_char(d: u32) -> (c: char)
    requires
        d < 16,
    ensures
        c == hex_digit(d as int),
{
    if d == 0 { '0' }
    else if d == 1 { '1' }
    else if d == 2 { '2' }
    else if d == 3 { '3' }
    else if d == 4 { '4' }
    else if d == 5 { '5' }
    else if d == 6 { '6' }
    else if d == 7 { '7' }
    else if d == 8 { '8' }
    else if d == 9 { '9' }
    else if d == 10 { 'a' }
    else if d == 11 { 'b' }
    else if d == 12 { 'c' }
    else if d == 13 { 'd' }
    else if d == 14 { 'e' }
    else { 'f' }
}

} // verus!
