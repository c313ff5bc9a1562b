//! The symbol table of one function body.
//!
//! A table maps a dotted identifier path to the storage handle of the path,
//! if it has one, and to its type. A structure is bound under its own path
//! without a handle, and each of its scalar leaves under the leaf's path.
//! Bindings are never removed; a later binding of a path hides the earlier
//! one.

use crate::types::{flat_map, leaf_views, path_map_entries, same_text, ChipType, Leaf, TypeShape};
use vstd::prelude::*;
use vstd::string::StringExecFns;

verus! {

/// What a table holds for one path: the storage handle and the type.
pub type Binding<L> = (Option<L>, TypeShape);

/// A symbol table. `L` is the type of the storage handles.
pub struct LocalMap<L: Copy> {
    pub names: Vec<(String, (Option<L>, ChipType))>,
}

/// The table that a list of bindings stands for: of two bindings of one
/// path, the later one counts.
pub open spec fn bindings<L>(names: Seq<(String, (Option<L>, ChipType))>) -> Map<
    Seq<char>,
    Binding<L>,
>
    decreases names.len(),
{
    if names.len() == 0 {
        Map::empty()
    } else {
        bindings(names.drop_last()).insert(names.last().0@, (names.last().1.0, names.last().1.1@))
    }
}

/// The table after each of `items` was bound as a scalar without storage.
pub open spec fn with_leaves<L>(table: Map<Seq<char>, Binding<L>>, items: Seq<Leaf>) -> Map<
    Seq<char>,
    Binding<L>,
>
    decreases items.len(),
{
    if items.len() == 0 {
        table
    } else {
        with_leaves(table, items.drop_last()).insert(
            items.last().0,
            (None, TypeShape::Primitive(items.last().1)),
        )
    }
}

/// The table after `path` was declared with type `shape`: the path itself is
/// bound to the type, and every leaf path of the flattened type to its scalar
/// kind, all without storage.
pub open spec fn declared<L>(
    table: Map<Seq<char>, Binding<L>>,
    path: Seq<char>,
    shape: TypeShape,
) -> Map<Seq<char>, Binding<L>> {
    with_leaves(table.insert(path, (None, shape)), flat_map(shape, path))
}

impl<L: Copy> View for LocalMap<L> {
    type V = Map<Seq<char>, Binding<L>>;

    open spec fn view(&self) -> Map<Seq<char>, Binding<L>> {
        bindings(self.names@)
    }
}

impl<L: Copy> LocalMap<L> {
    /// A table without bindings.
    pub fn new() -> (table: LocalMap<L>)
        ensures
            table@ == Map::<Seq<char>, Binding<L>>::empty(),
    {
        LocalMap { names: Vec::new() }
    }

    /// Binds `path` to a handle and a type, in place of what it was bound to.
    pub fn insert(&mut self, path: String, handle: Option<L>, chip_type: ChipType)
        ensures
            final(self)@ == old(self)@.insert(path@, (handle, chip_type@)),
    {
        self.names.push((path, (handle, chip_type)));
        proof {
            assert(self.names@.drop_last() =~= old(self).names@);
        }
    }

    /// The binding of `path`, or `None` where the path is not bound.
    pub fn lookup(&self, path: &str) -> (found: Option<&(Option<L>, ChipType)>)
        ensures
            match found {
                Some(entry) => self@.dom().contains(path@) && self@[path@] == (entry.0, entry.1@),
                None => !self@.dom().contains(path@),
            },
    {
        let mut i: usize = self.names.len();
        proof {
            assert(self.names@.take(i as int) =~= self.names@);
        }
        while i > 0
            invariant
                i <= self.names.len(),
                self@.dom().contains(path@) == bindings(self.names@.take(i as int)).dom().contains(
                    path@,
                ),
                self@.dom().contains(path@) ==> self@[path@] == bindings(
                    self.names@.take(i as int),
                )[path@],
            decreases i,
        {
            i -= 1;
            proof {
                assert(self.names@.take(i + 1).drop_last() =~= self.names@.take(i as int));
            }
            if same_text(self.names[i].0.as_str(), path) {
                return Some(&self.names[i].1);
            }
        }
        None
    }

    /// Declares `path` with type `chip_type`: binds the path itself and every
    /// leaf path of the flattened type, none of them with storage.
    pub fn declare(&mut self, path: &str, chip_type: &ChipType)
        ensures
            final(self)@ == declared(old(self)@, path@, chip_type@),
    {
        let flat = chip_type.flatten(path);
        let leaves = path_map_entries(&flat);
        self.insert(String::from_str(path), None, chip_type.clone());
        let ghost base = self@;
        let mut i: usize = 0;
        while i < leaves.len()
            invariant
                i <= leaves.len(),
                leaf_views(leaves@) == flat_map(chip_type@, path@),
                self@ == with_leaves(base, flat_map(chip_type@, path@).take(i as int)),
            decreases leaves.len() - i,
        {
            proof {
                let items = flat_map(chip_type@, path@);
                assert(items.take(i + 1).drop_last() =~= items.take(i as int));
                assert(items[i as int] == (leaves@[i as int].0@, leaves@[i as int].1));
            }
            let leaf = &leaves[i];
            self.insert(leaf.0.clone(), None, ChipType::Primitive(leaf.1));
            i += 1;
        }
        proof {
            let items = flat_map(chip_type@, path@);
            assert(items.take(leaves.len() as int) =~= items);
        }
    }

    /// Attaches the storage handle `handle` to `path`, which keeps its type.
    /// Returns whether the path was bound; the table is unchanged where it
    /// was not.
    pub fn bind_storage(&mut self, path: &str, handle: L) -> (bound: bool)
        ensures
            bound == old(self)@.dom().contains(path@),
            bound ==> final(self)@ == old(self)@.insert(
                path@,
                (Some(handle), old(self)@[path@].1),
            ),
            !bound ==> final(self)@ == old(self)@,
    {
        let chip_type = match self.lookup(path) {
            Some(entry) => entry.1.clone(),
            None => {
                return false;
            },
        };
        self.insert(String::from_str(path), Some(handle), chip_type);
        true
    }
}

} // verus!
