//! The schema tree: which fields to keep, how to name them, how to transform them.

use crate::plan::Plan;
use crate::transform::{is_transform, meaning};
use crate::value::{Tree, Value};
use vstd::prelude::*;
use vstd::string::*;

verus! {

/// A node of a schema. `Sub` selects a nested object or array by its key and
/// holds the nodes to extract below it; `Key` selects one field by its key,
/// with an optional output name and an optional transform of its value.
#[derive(Debug)]
pub enum Schema<F> {
    Sub(String, Vec<Schema<F>>),
    Key(String, Option<String>, Option<F>),
}

/// The path of `name` below `prefix`: `name` itself below the empty prefix,
/// else the two joined by an underscore.
pub open spec fn joined(prefix: Seq<char>, name: Seq<char>) -> Seq<char> {
    if prefix.len() == 0 {
        name
    } else {
        prefix + seq!['_'] + name
    }
}

impl<F> Schema<F> {
    /// What the schema holds, where `meaning` says which function a transform computes.
    pub open spec fn plan_with(
        self,
        meaning: spec_fn(F) -> spec_fn(Option<Tree>) -> Option<Tree>,
    ) -> Plan
        decreases self,
    {
        match self {
            Schema::Sub(key, children) => Plan::Sub(
                key@,
                Seq::new(
                    children@.len(),
                    |i: int|
                        if 0 <= i < children@.len() {
                            children@[i].plan_with(meaning)
                        } else {
                            Plan::Sub(Seq::empty(), Seq::empty())
                        },
                ),
            ),
            Schema::Key(key, name, transform) => Plan::Key(
                key@,
                match name {
                    Some(name) => Some(name@),
                    None => None,
                },
                match transform {
                    Some(f) => Some(meaning(f)),
                    None => None,
                },
            ),
        }
    }

    /// Every transform in the schema meets `fit`.
    pub open spec fn every_transform(self, fit: spec_fn(F) -> bool) -> bool
        decreases self,
    {
        match self {
            Schema::Sub(_, children) => forall|i: int|
                0 <= i < children@.len() ==> (#[trigger] children@[i]).every_transform(fit),
            Schema::Key(_, _, transform) => transform matches Some(f) ==> fit(f),
        }
    }

    /// The paths of the `Key` nodes of the schema below `prefix`, in the order
    /// of the schema: each is the keys of the nodes from the root down to it,
    /// joined by underscores. An output name that a node has plays no part.
    pub open spec fn paths(self, prefix: Seq<char>) -> Seq<Seq<char>>
        decreases self, 1nat, 0nat,
    {
        match self {
            Schema::Sub(key, children) => self.paths_of_first(
                children@.len(),
                joined(prefix, key@),
            ),
            Schema::Key(key, _, _) => seq![joined(prefix, key@)],
        }
    }

    /// The paths of the `Key` nodes below the first `n` children of a `Sub`
    /// node, whose own path is `path`.
    pub open spec fn paths_of_first(self, n: nat, path: Seq<char>) -> Seq<Seq<char>>
        decreases self, 0nat, n,
    {
        match self {
            Schema::Sub(_, children) => if 0 < n <= children@.len() {
                self.paths_of_first((n - 1) as nat, path) + children@[n - 1].paths(path)
            } else {
                Seq::empty()
            },
            Schema::Key(_, _, _) => Seq::empty(),
        }
    }

    /// Lists the paths of the `Key` nodes of the schema.
    pub fn names(&self) -> (paths: Vec<String>)
        ensures
            paths.deep_view() == self.paths(Seq::empty()),
    {
        let paths = self._names("");
        proof {
            reveal_strlit("");
            assert(""@ =~= Seq::<char>::empty());
        }
        paths
    }

    /// Lists the paths of the `Key` nodes of the schema below `prefix`.
    pub fn _names(&self, prefix: &str) -> (paths: Vec<String>)
        ensures
            paths.deep_view() == self.paths(prefix@),
        decreases self,
    {
        match self {
            Schema::Sub(name, children) => {
                let path = Self::prefix(prefix, name.as_str());
                let mut paths: Vec<String> = Vec::new();
                let mut i: usize = 0;
                assert(paths.deep_view() =~= self.paths_of_first(0, path@));
                while i < children.len()
                    invariant
                        i <= children.len(),
                        self is Sub,
                        self->Sub_1 == *children,
                        paths.deep_view() == self.paths_of_first(i as nat, path@),
                    decreases children.len() - i,
                {
                    let mut more = children[i]._names(path.as_str());
                    let ghost before = paths.deep_view();
                    let ghost added = more.deep_view();
                    paths.append(&mut more);
                    assert(paths.deep_view() =~= before + added);
                    i = i + 1;
                }
                paths
            },
            Schema::Key(name, _, _) => {
                let mut paths: Vec<String> = Vec::new();
                paths.push(Self::prefix(prefix, name.as_str()));
                assert(paths.deep_view() =~= seq![joined(prefix@, name@)]);
                paths
            },
        }
    }

    /// Joins `name` to `prefix`.
    pub fn prefix(prefix: &str, name: &str) -> (path: String)
        ensures
            path@ == joined(prefix@, name@),
    {
        if prefix.is_empty() {
            name.to_owned()
        } else {
            let mut path = prefix.to_owned();
            path.append("_");
            path.append(name);
            proof {
                reveal_strlit("_");
                assert("_"@ =~= seq!['_']);
            }
            path
        }
    }
}

/// What each of `nodes` holds.
pub open spec fn plans<F: Fn(Option<Value>) -> Option<Value>>(nodes: Seq<Schema<F>>) -> Seq<Plan> {
    Seq::new(nodes.len(), |i: int| nodes[i].plan())
}

impl<F: Fn(Option<Value>) -> Option<Value>> Schema<F> {
    /// What the schema holds.
    pub open spec fn plan(self) -> Plan {
        self.plan_with(|f: F| meaning(f))
    }

    /// Every transform in the schema can serve as one.
    pub open spec fn well_formed(self) -> bool {
        self.every_transform(|f: F| is_transform(f))
    }

    /// A leaf that keeps the field `id` under the path of `id`.
    pub fn key(id: &str) -> (node: Self)
        ensures
            node.plan() == Plan::Key(id@, None, None),
            node.well_formed(),
    {
        Schema::Key(id.to_owned(), None, None)
    }

    /// A leaf that keeps the field `id` under the name `name`.
    pub fn key_as(id: &str, name: &str) -> (node: Self)
        ensures
            node.plan() == Plan::Key(id@, Some(name@), None),
            node.well_formed(),
    {
        Schema::Key(id.to_owned(), Some(name.to_owned()), None)
    }

    /// A leaf that keeps the field `id` under the name `name`, passed through `func`.
    pub fn key_with(id: &str, name: &str, func: F) -> (node: Self)
        ensures
            node.plan() == Plan::Key(id@, Some(name@), Some(meaning(func))),
            is_transform(func) ==> node.well_formed(),
    {
        Schema::Key(id.to_owned(), Some(name.to_owned()), Some(func))
    }

    /// A node for what the document holds under `id`, with `children` below it.
    pub fn sub(id: &str, children: Vec<Self>) -> (node: Self)
        ensures
            node.plan() == Plan::Sub(id@, plans(children@)),
            (forall|i: int| 0 <= i < children@.len() ==> (#[trigger] children@[i]).well_formed())
                ==> node.well_formed(),
    {
        let ghost below = children@;
        let node = Schema::Sub(id.to_owned(), children);
        assert(node.plan()->Sub_1 =~= plans(below));
        node
    }

    /// The root of a schema: a node for the document itself, which adds
    /// nothing to the paths of the nodes below it.
    pub fn doc(children: Vec<Self>) -> (node: Self)
        ensures
            node.plan() == Plan::Sub(Seq::empty(), plans(children@)),
            (forall|i: int| 0 <= i < children@.len() ==> (#[trigger] children@[i]).well_formed())
                ==> node.well_formed(),
    {
        let node = Self::sub("", children);
        proof {
            reveal_strlit("");
            assert(""@ =~= Seq::<char>::empty());
        }
        node
    }
}

} // verus!
