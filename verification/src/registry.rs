//! The data registry: values stored at build time, one store per scope,
//! inherited downward through the scopes.
//!
//! Scopes form a tree. Scope 0 is the root, and every other scope names a
//! parent that was created before it. A lookup made from a scope sees the
//! scope's own values first, then its parent's, and so on up to the root. It
//! never sees the values of a child or of a sibling.

use crate::order::reversed;
use crate::store::TypeKey;
use crate::store::TypeMap;
use vstd::prelude::*;

verus! {

/// The values of one scope.
#[derive(Debug)]
pub struct DataScope<D> {
    parent: Option<usize>,
    values: TypeMap<D>,
}

/// The mathematical value of a [`DataScope`].
pub struct DataScopeModel<D> {
    pub parent: Option<int>,
    pub values: Map<TypeKey, D>,
}

impl<D> View for DataScope<D> {
    type V = DataScopeModel<D>;

    closed spec fn view(&self) -> DataScopeModel<D> {
        DataScopeModel {
            parent: match self.parent {
                Some(p) => Some(p as int),
                None => None,
            },
            values: self.values@,
        }
    }
}

/// The scopes of a registry, root first.
#[derive(Debug)]
pub struct DataRegistry<D> {
    scopes: Vec<DataScope<D>>,
}

/// The models of a list of scopes.
pub open spec fn scope_models<D>(scopes: Seq<DataScope<D>>) -> Seq<DataScopeModel<D>> {
    scopes.map_values(|s: DataScope<D>| s@)
}

/// Whether `scopes` form a tree rooted at scope 0 in which every parent
/// comes before its children.
pub open spec fn is_scope_tree<D>(scopes: Seq<DataScopeModel<D>>) -> bool {
    &&& scopes.len() >= 1
    &&& scopes[0].parent is None
    &&& forall|i: int|
        1 <= i < scopes.len() ==> (#[trigger] scopes[i]).parent is Some && 0 <= scopes[i].parent->0
            < i
}

/// The value that a lookup of `key` from `scope` finds: the scope's own, or
/// else the one its nearest ancestor holds.
pub open spec fn resolve<D>(scopes: Seq<DataScopeModel<D>>, scope: int, key: TypeKey) -> Option<D>
    decreases scope,
{
    if !(0 <= scope < scopes.len()) {
        None
    } else if scopes[scope].values.contains_key(key) {
        Some(scopes[scope].values[key])
    } else {
        match scopes[scope].parent {
            Some(p) => if 0 <= p < scope {
                resolve(scopes, p, key)
            } else {
                None
            },
            None => None,
        }
    }
}

/// A scope as it stands after its registry was mounted behind `offset`
/// scopes of another: the root hangs under that registry's root, and every
/// other scope keeps its parent, `offset` places further on.
pub open spec fn shifted<D>(scope: DataScopeModel<D>, offset: int) -> DataScopeModel<D> {
    DataScopeModel {
        parent: match scope.parent {
            Some(p) => Some(p + offset),
            None => Some(0int),
        },
        values: scope.values,
    }
}

/// The scopes of a parent registry with those of a child mounted behind
/// them.
pub open spec fn merged<D>(
    parent: Seq<DataScopeModel<D>>,
    child: Seq<DataScopeModel<D>>,
) -> Seq<DataScopeModel<D>> {
    parent + child.map_values(|s: DataScopeModel<D>| shifted(s, parent.len() as int))
}

impl<D> View for DataRegistry<D> {
    type V = Seq<DataScopeModel<D>>;

    closed spec fn view(&self) -> Seq<DataScopeModel<D>> {
        scope_models(self.scopes@)
    }
}

impl<D> DataRegistry<D> {
    /// The invariant of a registry: its scopes form a tree.
    pub open spec fn wf(&self) -> bool {
        is_scope_tree(self@)
    }

    /// A registry with an empty root scope.
    pub fn new() -> (r: DataRegistry<D>)
        ensures
            r.wf(),
            r@.len() == 1,
            r@[0].values == Map::<TypeKey, D>::empty(),
    {
        let mut scopes: Vec<DataScope<D>> = Vec::new();
        scopes.push(DataScope { parent: None, values: TypeMap::new() });
        DataRegistry { scopes }
    }

    /// The number of scopes.
    pub fn len(&self) -> (n: usize)
        ensures
            n == self@.len(),
    {
        self.scopes.len()
    }

    /// Stores `value` under `key` in the root scope, in place of any value
    /// stored there before.
    pub fn insert(&mut self, key: TypeKey, value: D)
        requires
            old(self).wf(),
        ensures
            final(self).wf(),
            final(self)@ == old(self)@.update(
                0,
                DataScopeModel { parent: None, values: old(self)@[0].values.insert(key, value) },
            ),
    {
        let ghost before = self@;
        let _ = self.scopes[0].values.insert(key, value);
        assert(self@ =~= before.update(
            0,
            DataScopeModel { parent: None, values: before[0].values.insert(key, value) },
        ));
    }

    /// Looks `key` up from `scope`: the scope's own value, or else the one
    /// its nearest ancestor holds. `None` when no scope on the way to the
    /// root holds the key, or when there is no such scope.
    pub fn lookup(&self, scope: usize, key: TypeKey) -> (value: Option<&D>)
        requires
            self.wf(),
        ensures
            match value {
                Some(v) => resolve(self@, scope as int, key) == Some(*v),
                None => resolve(self@, scope as int, key) is None,
            },
    {
        if scope >= self.scopes.len() {
            return None;
        }
        let mut at: usize = scope;
        loop
            invariant
                self.wf(),
                at < self.scopes.len(),
                resolve(self@, scope as int, key) == resolve(self@, at as int, key),
            decreases at,
        {
            assert(self@[at as int] == self.scopes@[at as int]@);
            match self.scopes[at].values.get(key) {
                Some(v) => {
                    return Some(v);
                },
                None => {},
            }
            match self.scopes[at].parent {
                Some(p) => {
                    if p < at {
                        at = p;
                    } else {
                        return None;
                    }
                },
                None => {
                    return None;
                },
            }
        }
    }

    /// Mounts the scopes of `child` behind those of `self`, as a subtree
    /// under the root, and returns the number of scopes that were there
    /// before: the distance by which the child's scopes have moved.
    pub fn absorb(&mut self, child: DataRegistry<D>) -> (offset: usize)
        requires
            old(self).wf(),
            child.wf(),
        ensures
            final(self).wf(),
            offset == old(self)@.len(),
            final(self)@ == merged(old(self)@, child@),
    {
        let offset = self.scopes.len();
        let ghost parent = self@;
        let ghost incoming = child@;
        let mut rest = reversed(child.scopes);
        let ghost moved = incoming.map_values(|s: DataScopeModel<D>| shifted(s, offset as int));
        let mut i: usize = 0;
        assert(self@ =~= parent + moved.take(0));
        while rest.len() > 0
            invariant
                is_scope_tree(parent),
                is_scope_tree(incoming),
                offset == parent.len(),
                moved == incoming.map_values(|s: DataScopeModel<D>| shifted(s, offset as int)),
                i + rest.len() == incoming.len(),
                forall|j: int|
                    0 <= j < rest.len() ==> (#[trigger] rest@[j])@ == incoming[incoming.len() - 1
                        - j],
                self@ == parent + moved.take(i as int),
            decreases rest.len(),
        {
            let ghost before = self@;
            let scope = rest.pop().unwrap();
            assert(scope@ == incoming[i as int]);
            assert(moved.take(i as int).len() == i);
            assert(self@.len() == offset + i);
            assert(self.scopes.len() == offset + i);
            let parent_index: usize = match scope.parent {
                Some(p) => p + offset,
                None => 0,
            };
            let placed = DataScope { parent: Some(parent_index), values: scope.values };
            assert(placed@ == shifted(incoming[i as int], offset as int));
            self.scopes.push(placed);
            assert(self@ =~= before.push(moved[i as int]));
            assert(moved.take(i + 1) =~= moved.take(i as int).push(moved[i as int]));
            i += 1;
        }
        assert(moved.take(i as int) =~= moved);
        offset
    }
}

/// A lookup from a scope that came with the child finds the child's value,
/// and where the child's tree holds none, what the parent's root holds.
pub proof fn lemma_merged_resolve_child<D>(
    parent: Seq<DataScopeModel<D>>,
    child: Seq<DataScopeModel<D>>,
    scope: int,
    key: TypeKey,
)
    requires
        is_scope_tree(parent),
        is_scope_tree(child),
        0 <= scope < child.len(),
    ensures
        resolve(merged(parent, child), parent.len() + scope, key) == (match resolve(
            child,
            scope,
            key,
        ) {
            Some(v) => Some(v),
            None => resolve(parent, 0, key),
        }),
    decreases scope,
{
    let all = merged(parent, child);
    let offset = parent.len() as int;
    assert(all[offset + scope] == shifted(child[scope], offset));
    assert(all[0] == parent[0]);
    if !child[scope].values.contains_key(key) {
        if scope > 0 {
            lemma_merged_resolve_child(parent, child, child[scope].parent->0, key);
        } else {
            lemma_merged_resolve_parent(parent, child, 0, key);
        }
    }
}

/// A lookup from a scope of the parent finds what it found before the
/// mount: nothing of the child is visible from there.
pub proof fn lemma_merged_resolve_parent<D>(
    parent: Seq<DataScopeModel<D>>,
    child: Seq<DataScopeModel<D>>,
    scope: int,
    key: TypeKey,
)
    requires
        is_scope_tree(parent),
        0 <= scope < parent.len(),
    ensures
        resolve(merged(parent, child), scope, key) == resolve(parent, scope, key),
    decreases scope,
{
    let all = merged(parent, child);
    assert(all[scope] == parent[scope]);
    if !parent[scope].values.contains_key(key) {
        if scope > 0 {
            lemma_merged_resolve_parent(parent, child, parent[scope].parent->0, key);
        }
    }
}

} // verus!
