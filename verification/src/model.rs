//! The document model the engine consumes: global ARG defaults and ordered
//! stages, each with a parent reference, its own ARG defaults, and its
//! ordered instructions. The model is built once and read-only thereafter.

use vstd::prelude::*;

use crate::text::str_eq;

verus! {

/// The view of an optional string.
pub open spec fn opt_str_view(o: Option<String>) -> Option<Seq<char>> {
    match o {
        Some(s) => Some(s@),
        None => None,
    }
}

/// A mapping from ARG names to their optional default text.
///
/// Entries keep insertion order; keys are unique, and a repeated `set`
/// replaces the earlier value, as a map insert would.
#[derive(Debug, Clone)]
pub struct ArgDefaults {
    entries: Vec<(String, Option<String>)>,
}

impl View for ArgDefaults {
    type V = Seq<(Seq<char>, Option<Seq<char>>)>;

    closed spec fn view(&self) -> Seq<(Seq<char>, Option<Seq<char>>)> {
        Seq::new(self.entries@.len(), |i: int| (
            self.entries@[i].0@,
            opt_str_view(self.entries@[i].1),
        ))
    }
}

/// What looking a name up in the entry sequence yields: the first match.
pub open spec fn spec_arg_lookup(
    entries: Seq<(Seq<char>, Option<Seq<char>>)>,
    name: Seq<char>,
) -> Option<Option<Seq<char>>>
    decreases entries.len(),
{
    if entries.len() == 0 {
        None
    } else if entries[0].0 == name {
        Some(entries[0].1)
    } else {
        spec_arg_lookup(entries.skip(1), name)
    }
}

/// Unique keys: no name occurs twice.
pub open spec fn arg_keys_unique(entries: Seq<(Seq<char>, Option<Seq<char>>)>) -> bool {
    forall|i: int, j: int| 0 <= i < j < entries.len() ==> entries[i].0 != entries[j].0
}

impl ArgDefaults {
    pub fn new() -> (r: Self)
        ensures
            r@ == Seq::<(Seq<char>, Option<Seq<char>>)>::empty(),
    {
        let r = Self { entries: Vec::new() };
        proof {
            assert(r@ =~= Seq::<(Seq<char>, Option<Seq<char>>)>::empty());
        }
        r
    }

    pub fn len(&self) -> (r: usize)
        ensures
            r == self@.len(),
    {
        self.entries.len()
    }

    /// The entry at a position, for iterating in stored order.
    pub fn entry_at(&self, i: usize) -> (r: (String, Option<String>))
        requires
            i < self@.len(),
        ensures
            (r.0@, opt_str_view(r.1)) == self@[i as int],
    {
        let pair = &self.entries[i];
        (pair.0.clone(), pair.1.clone())
    }

    /// Looks a name up, returning its optional default when declared.
    pub fn get(&self, name: &str) -> (r: Option<Option<String>>)
        ensures
            match r {
                Some(v) => spec_arg_lookup(self@, name@) == Some(opt_str_view(v)),
                None => spec_arg_lookup(self@, name@) is None,
            },
    {
        let ghost entries = self@;
        let mut i: usize = 0;
        proof {
            assert(entries.skip(0) =~= entries);
        }
        loop
            invariant
                entries == self@,
                i <= entries.len(),
                entries.len() == self.entries@.len(),
                spec_arg_lookup(entries, name@) == spec_arg_lookup(
                    entries.skip(i as int),
                    name@,
                ),
            decreases entries.len() - i,
        {
            if i >= self.entries.len() {
                return None;
            }
            proof {
                assert(entries[i as int] == (self.entries@[i as int].0@, opt_str_view(
                    self.entries@[i as int].1,
                )));
                assert(entries.skip(i as int)[0] == entries[i as int]);
            }
            if str_eq(name, self.entries[i].0.as_str()) {
                let v = self.entries[i].1.clone();
                return Some(v);
            }
            proof {
                assert(entries.skip(i as int).skip(1) =~= entries.skip(i + 1));
            }
            i += 1;
        }
    }

    /// Declares a name, replacing an earlier declaration of the same name.
    pub fn set(&mut self, name: String, value: Option<String>)
        ensures
            spec_arg_lookup(final(self)@, name@) == Some(opt_str_view(value)),
            final(self)@.len() <= old(self)@.len() + 1,
            forall|other: Seq<char>| other != name@ ==> spec_arg_lookup(final(self)@, other)
                == spec_arg_lookup(old(self)@, other),
            arg_keys_unique(old(self)@) ==> arg_keys_unique(final(self)@),
    {
        let ghost entries0 = self@;
        let ghost gname = name@;
        let ghost gval = opt_str_view(value);
        let mut i: usize = 0;
        loop
            invariant
                entries0 == old(self)@,
                self@ == entries0,
                self.entries@.len() == entries0.len(),
                i <= entries0.len(),
                gname == name@,
                gval == opt_str_view(value),
                forall|j: int| 0 <= j < i ==> (#[trigger] entries0[j]).0 != gname,
            decreases entries0.len() - i,
        {
            if i >= self.entries.len() {
                self.entries.push((name, value));
                proof {
                    let post = self@;
                    assert(post.len() == entries0.len() + 1);
                    assert(forall|j: int| 0 <= j < entries0.len() ==> #[trigger] post[j]
                        == entries0[j]);
                    assert(post[entries0.len() as int] == (gname, gval));
                    lemma_lookup_append_new(entries0, gname, gval);
                    assert(post =~= entries0.push((gname, gval)));
                }
                return;
            }
            proof {
                assert(entries0[i as int] == (self.entries@[i as int].0@, opt_str_view(
                    self.entries@[i as int].1,
                )));
            }
            if str_eq(name.as_str(), self.entries[i].0.as_str()) {
                self.entries.remove(i);
                self.entries.insert(i, (name, value));
                proof {
                    let post = self@;
                    assert(post.len() == entries0.len());
                    assert(forall|j: int|
                        0 <= j < entries0.len() && j != i as int ==> #[trigger] post[j]
                            == entries0[j]);
                    assert(post[i as int] == (gname, gval));
                    lemma_lookup_replace(entries0, post, i as int, gname, gval);
                }
                return;
            }
            i += 1;
        }
    }
}

/// Appending a fresh name: its lookup finds the new entry; others keep
/// their result.
proof fn lemma_lookup_append_new(
    entries: Seq<(Seq<char>, Option<Seq<char>>)>,
    name: Seq<char>,
    value: Option<Seq<char>>,
)
    requires
        forall|j: int| 0 <= j < entries.len() ==> (#[trigger] entries[j]).0 != name,
    ensures
        spec_arg_lookup(entries.push((name, value)), name) == Some(value),
        forall|other: Seq<char>| other != name ==> spec_arg_lookup(
            entries.push((name, value)),
            other,
        ) == spec_arg_lookup(entries, other),
        arg_keys_unique(entries) ==> arg_keys_unique(entries.push((name, value))),
    decreases entries.len(),
{
    let p = entries.push((name, value));
    if entries.len() == 0 {
        assert(p[0] == (name, value));
        assert(p.len() == 1);
        assert(p.skip(1) =~= Seq::<(Seq<char>, Option<Seq<char>>)>::empty());
        assert forall|other: Seq<char>| other != name implies spec_arg_lookup(p, other)
            == spec_arg_lookup(entries, other) by {
            assert(spec_arg_lookup(p, other) == spec_arg_lookup(p.skip(1), other));
        }
    } else {
        assert(p[0] == entries[0]);
        assert(p.skip(1) =~= entries.skip(1).push((name, value)));
        lemma_lookup_append_new(entries.skip(1), name, value);
        assert(entries[0].0 != name);
        assert forall|other: Seq<char>| other != name implies spec_arg_lookup(p, other)
            == spec_arg_lookup(entries, other) by {
            if entries[0].0 != other {
                assert(spec_arg_lookup(p, other) == spec_arg_lookup(p.skip(1), other));
                assert(spec_arg_lookup(entries, other) == spec_arg_lookup(
                    entries.skip(1),
                    other,
                ));
            }
        }
    }
    if arg_keys_unique(entries) {
        assert forall|i: int, j: int| 0 <= i < j < p.len() implies p[i].0 != p[j].0 by {
            if j < entries.len() {
                assert(p[i] == entries[i] && p[j] == entries[j]);
            } else {
                assert(p[i] == entries[i] && p[j] == (name, value));
            }
        }
    }
}

/// Replacing the first entry holding a name in place: its lookup yields the
/// new value; others keep their result.
proof fn lemma_lookup_replace(
    pre: Seq<(Seq<char>, Option<Seq<char>>)>,
    post: Seq<(Seq<char>, Option<Seq<char>>)>,
    at: int,
    name: Seq<char>,
    value: Option<Seq<char>>,
)
    requires
        0 <= at < pre.len(),
        post.len() == pre.len(),
        forall|j: int| 0 <= j < pre.len() && j != at ==> #[trigger] post[j] == pre[j],
        post[at] == (name, value),
        pre[at].0 == name,
        forall|j: int| 0 <= j < at ==> (#[trigger] pre[j]).0 != name,
    ensures
        spec_arg_lookup(post, name) == Some(value),
        forall|other: Seq<char>| other != name ==> spec_arg_lookup(post, other)
            == spec_arg_lookup(pre, other),
        arg_keys_unique(pre) ==> arg_keys_unique(post),
    decreases at,
{
    if at == 0 {
        assert(post[0] == (name, value));
        assert forall|other: Seq<char>| other != name implies spec_arg_lookup(post, other)
            == spec_arg_lookup(pre, other) by {
            assert(post.skip(1) =~= pre.skip(1));
            assert(spec_arg_lookup(post, other) == spec_arg_lookup(post.skip(1), other));
            assert(spec_arg_lookup(pre, other) == spec_arg_lookup(pre.skip(1), other));
        }
    } else {
        assert(post[0] == pre[0]);
        assert(pre[0].0 != name);
        let pre1 = pre.skip(1);
        let post1 = post.skip(1);
        assert(forall|j: int| 0 <= j < pre1.len() && j != at - 1 ==> #[trigger] post1[j]
            == pre1[j]);
        assert(post1[at - 1] == post[at]);
        assert(pre1[at - 1] == pre[at]);
        assert(forall|j: int| 0 <= j < at - 1 ==> (#[trigger] pre1[j]).0 != name);
        lemma_lookup_replace(pre1, post1, at - 1, name, value);
        assert forall|other: Seq<char>| other != name implies spec_arg_lookup(post, other)
            == spec_arg_lookup(pre, other) by {
            if pre[0].0 != other {
                assert(spec_arg_lookup(post, other) == spec_arg_lookup(post1, other));
                assert(spec_arg_lookup(pre, other) == spec_arg_lookup(pre1, other));
            }
        }
    }
    if arg_keys_unique(pre) {
        assert forall|i: int, j: int| 0 <= i < j < post.len() implies post[i].0 != post[j].0 by {
            if i == at {
                assert(pre[i].0 == name);
                assert(pre[i].0 != pre[j].0);
            } else if j == at {
                assert(pre[j].0 == name);
                assert(pre[i].0 != pre[j].0);
            }
        }
    }
}

/// The parent of a stage: an image reference, the empty image, or another
/// stage referenced by name.
#[derive(Debug, Clone)]
pub enum Parent {
    Image(String),
    Scratch,
    StageRef(String),
}

impl PartialEq for Parent {
    fn eq(&self, other: &Self) -> (r: bool) {
        match (self, other) {
            (Parent::Image(a), Parent::Image(b)) => str_eq(a.as_str(), b.as_str()),
            (Parent::Scratch, Parent::Scratch) => true,
            (Parent::StageRef(a), Parent::StageRef(b)) => str_eq(a.as_str(), b.as_str()),
            _ => false,
        }
    }
}

impl vstd::std_specs::cmp::PartialEqSpecImpl for Parent {
    open spec fn obeys_eq_spec() -> bool {
        true
    }

    open spec fn eq_spec(&self, other: &Self) -> bool {
        match (self, other) {
            (Parent::Image(a), Parent::Image(b)) => a@ == b@,
            (Parent::Scratch, Parent::Scratch) => true,
            (Parent::StageRef(a), Parent::StageRef(b)) => a@ == b@,
            _ => false,
        }
    }
}

impl Eq for Parent {

}

/// One instruction of the document: its upper-cased keyword, its exact
/// source text, and its 1-based inclusive line span.
#[derive(Debug, Clone)]
pub struct Instruction {
    pub keyword: String,
    pub raw: String,
    pub start_line: usize,
    pub end_line: usize,
}

/// One build stage: its position, optional alias, parent, ARG defaults,
/// and the instructions after its leading FROM.
#[derive(Debug, Clone)]
pub struct Stage {
    pub index: usize,
    pub name: Option<String>,
    pub parent: Parent,
    pub arg_defaults: ArgDefaults,
    pub instructions: Vec<Instruction>,
}

/// The whole parsed document.
#[derive(Debug, Clone)]
pub struct DockerfileModel {
    pub global_args: ArgDefaults,
    pub stages: Vec<Stage>,
    pub raw_instructions: Vec<Instruction>,
}

/// A model whose ARG tables all have unique keys, as tables built by
/// repeated `set` do.
pub open spec fn model_wf(m: DockerfileModel) -> bool {
    arg_keys_unique(m.global_args@) && forall|i: int|
        0 <= i < m.stages@.len() ==> arg_keys_unique(#[trigger] m.stages@[i].arg_defaults@)
}

impl DockerfileModel {
    /// An empty document: no global ARGs, no stages, no instructions.
    pub fn new() -> (r: Self)
        ensures
            r.global_args@.len() == 0,
            r.stages@.len() == 0,
            r.raw_instructions@.len() == 0,
            model_wf(r),
    {
        Self { global_args: ArgDefaults::new(), stages: Vec::new(), raw_instructions: Vec::new() }
    }
}

} // verus!
