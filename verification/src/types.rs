//! The value types of the language and their lowering to primitive slots.
//!
//! A value is either a scalar or a structure of named fields. Storage only
//! exists for scalars, so a structure is lowered ("flattened") to the ordered
//! list of its scalar leaves, each addressed by a dotted path.

use linked_hash_map::LinkedHashMap;
use std::rc::Rc;
use vstd::prelude::*;
use vstd::string::{StrSliceExecFns, StringExecFns};

verus! {

/// A scalar kind of the target machine.
#[derive(Debug, Clone, Copy, PartialEq, Eq, Structural)]
pub enum Primitive {
    F64,
    I64,
}

/// The type of a value: a scalar, or a named structure whose fields keep the
/// order in which they were declared. The structure's body is shared, so that
/// many bindings of one structure hold the same field list.
#[derive(Debug, PartialEq)]
pub enum ChipType {
    Struct(Rc<(String, Vec<(String, ChipType)>)>),
    Primitive(Primitive),
}

/// The mathematical shape of a [`ChipType`].
pub enum TypeShape {
    Struct(Seq<char>, Seq<(Seq<char>, TypeShape)>),
    Primitive(Primitive),
}

/// One leaf of a flattened type: its dotted path and its scalar kind.
pub type Leaf = (Seq<char>, Primitive);

/// The shapes of a field list, field by field.
pub open spec fn field_shapes(fields: Seq<(String, ChipType)>) -> Seq<(Seq<char>, TypeShape)>
    decreases fields,
{
    if fields.len() == 0 {
        Seq::empty()
    } else {
        field_shapes(fields.drop_last()).push((fields.last().0@, fields.last().1@))
    }
}

impl View for ChipType {
    type V = TypeShape;

    open spec fn view(&self) -> TypeShape
        decreases self,
    {
        match self {
            ChipType::Struct(body) => TypeShape::Struct(body.0@, field_shapes(body.1@)),
            ChipType::Primitive(kind) => TypeShape::Primitive(*kind),
        }
    }
}

/// The path of the field `field` below `root`.
pub open spec fn dotted(root: Seq<char>, field: Seq<char>) -> Seq<char> {
    root + seq!['.'] + field
}

/// The scalar leaves of `shape` below `root`, depth first, fields in
/// declaration order.
pub open spec fn leaves(shape: TypeShape, root: Seq<char>) -> Seq<Leaf>
    decreases shape,
{
    match shape {
        TypeShape::Primitive(kind) => seq![(root, kind)],
        TypeShape::Struct(_, fields) => field_leaves(fields, root),
    }
}

/// The leaves of each field of a field list, one field after the other.
pub open spec fn field_leaves(fields: Seq<(Seq<char>, TypeShape)>, root: Seq<char>) -> Seq<Leaf>
    decreases fields,
{
    if fields.len() == 0 {
        Seq::empty()
    } else {
        field_leaves(fields.drop_last(), root) + leaves(
            fields.last().1,
            dotted(root, fields.last().0),
        )
    }
}

/// What an insertion-ordered map holds after `key` is set to `value`: an
/// earlier entry under `key` leaves, and the new entry stands last.
pub open spec fn ordered_insert(entries: Seq<Leaf>, key: Seq<char>, value: Primitive) -> Seq<Leaf> {
    entries.filter(not_at(key)).push((key, value))
}

/// The test whether a leaf has another path than `key`.
pub open spec fn not_at(key: Seq<char>) -> spec_fn(Leaf) -> bool {
    |e: Leaf| e.0 != key
}

/// What an insertion-ordered map holds after each of `items` was inserted
/// into it in turn.
pub open spec fn insert_all(entries: Seq<Leaf>, items: Seq<Leaf>) -> Seq<Leaf>
    decreases items.len(),
{
    if items.len() == 0 {
        entries
    } else {
        ordered_insert(insert_all(entries, items.drop_last()), items.last().0, items.last().1)
    }
}

/// The flattened path map of `shape` below `root`.
pub open spec fn flat_map(shape: TypeShape, root: Seq<char>) -> Seq<Leaf> {
    insert_all(Seq::empty(), leaves(shape, root))
}

/// Whether a name holds no dot.
pub open spec fn dot_free(name: Seq<char>) -> bool {
    forall|i: int| 0 <= i < name.len() ==> name[i] != '.'
}

/// Whether every structure of a type has fields with names that hold no dot
/// and of which no two are equal. The leaves of such a type have paths of
/// their own.
pub open spec fn well_formed(shape: TypeShape) -> bool
    decreases shape,
{
    match shape {
        TypeShape::Primitive(_) => true,
        TypeShape::Struct(_, fields) => fields_well_formed(fields),
    }
}

/// Whether the fields of a list have names that hold no dot and of which no
/// two are equal, and well-formed types.
pub open spec fn fields_well_formed(fields: Seq<(Seq<char>, TypeShape)>) -> bool
    decreases fields,
{
    if fields.len() == 0 {
        true
    } else {
        &&& fields_well_formed(fields.drop_last())
        &&& dot_free(fields.last().0)
        &&& well_formed(fields.last().1)
        &&& forall|i: int| 0 <= i < fields.len() - 1 ==> (#[trigger] fields[i]).0 != fields.last().0
    }
}

/// Whether no two of the leaves have the same path.
pub open spec fn distinct_paths(items: Seq<Leaf>) -> bool {
    forall|i: int, j: int| 0 <= i < j < items.len() ==> items[i].0 != items[j].0
}

/// The paths of leaves, in the order of the leaves.
pub open spec fn paths(items: Seq<Leaf>) -> Seq<Seq<char>> {
    Seq::new(items.len(), |i: int| items[i].0)
}

/// The flattened path maps of the fields of a list below `root`, one behind
/// the other.
pub open spec fn field_maps(fields: Seq<(Seq<char>, TypeShape)>, root: Seq<char>) -> Seq<Leaf>
    decreases fields.len(),
{
    if fields.len() == 0 {
        Seq::empty()
    } else {
        field_maps(fields.drop_last(), root) + flat_map(
            fields.last().1,
            dotted(root, fields.last().0),
        )
    }
}

/// The leaves `items` with `root` put before the path of each.
pub open spec fn rooted(items: Seq<Leaf>, root: Seq<char>) -> Seq<Leaf> {
    Seq::new(items.len(), |i: int| (root + items[i].0, items[i].1))
}

/// The printed name of a type: a structure's own name, a scalar's kind.
pub open spec fn type_text(shape: TypeShape) -> Seq<char> {
    match shape {
        TypeShape::Struct(name, _) => name,
        TypeShape::Primitive(Primitive::F64) => "F64"@,
        TypeShape::Primitive(Primitive::I64) => "I64"@,
    }
}

#[verifier::external_type_specification]
#[verifier::external_body]
#[verifier::reject_recursive_types(K)]
#[verifier::reject_recursive_types(V)]
#[verifier::reject_recursive_types(S)]
pub struct ExLinkedHashMap<K, V, S>(LinkedHashMap<K, V, S>);

/// `Rc::clone`: another pointer to the same value.
#[verifier::external_body]
fn share<T>(pointer: &Rc<T>) -> (out: Rc<T>)
    ensures
        out == *pointer,
{
    Rc::clone(pointer)
}

/// `str`'s `==`: whether two strings hold the same characters.
#[verifier::external_body]
pub(crate) fn same_text(left: &str, right: &str) -> (same: bool)
    ensures
        same == (left@ == right@),
{
    left == right
}

impl Clone for ChipType {
    fn clone(&self) -> (out: ChipType)
        ensures
            out == *self,
    {
        match self {
            ChipType::Struct(body) => ChipType::Struct(share(body)),
            ChipType::Primitive(kind) => ChipType::Primitive(*kind),
        }
    }
}

/// The entries of a path map, oldest insertion first.
pub uninterp spec fn path_entries(map: LinkedHashMap<String, Primitive>) -> Seq<Leaf>;

/// `LinkedHashMap::new`: the map it makes holds nothing.
#[verifier::external_body]
fn new_path_map() -> (map: LinkedHashMap<String, Primitive>)
    ensures
        path_entries(map) == Seq::<Leaf>::empty(),
{
    LinkedHashMap::new()
}

/// `LinkedHashMap::insert`: an entry that was there under an equal key is
/// unlinked, and the entry with the new value is linked in as the newest one;
/// the other entries keep their order.
#[verifier::external_body]
fn path_map_insert(map: &mut LinkedHashMap<String, Primitive>, key: String, value: Primitive)
    ensures
        path_entries(*final(map)) == ordered_insert(path_entries(*old(map)), key@, value),
{
    map.insert(key, value);
}

/// `LinkedHashMap::iter`: the entries from the oldest insertion to the newest,
/// each copied out.
#[verifier::external_body]
pub(crate) fn path_map_entries(map: &LinkedHashMap<String, Primitive>) -> (out: Vec<
    (String, Primitive),
>)
    ensures
        leaf_views(out@) == path_entries(*map),
{
    map.iter().map(|(path, kind)| (path.clone(), *kind)).collect()
}

/// The leaves that a list of owned entries stands for.
pub open spec fn leaf_views(entries: Seq<(String, Primitive)>) -> Seq<Leaf> {
    Seq::new(entries.len(), |i: int| (entries[i].0@, entries[i].1))
}

proof fn lemma_insert_all_concat(entries: Seq<Leaf>, first: Seq<Leaf>, second: Seq<Leaf>)
    ensures
        insert_all(entries, first + second) == insert_all(insert_all(entries, first), second),
    decreases second.len(),
{
    if second.len() == 0 {
        assert(first + second =~= first);
    } else {
        lemma_insert_all_concat(entries, first, second.drop_last());
        assert((first + second).drop_last() =~= first + second.drop_last());
        assert((first + second).last() == second.last());
    }
}

proof fn lemma_field_shapes(fields: Seq<(String, ChipType)>)
    ensures
        field_shapes(fields).len() == fields.len(),
        forall|i: int|
            0 <= i < fields.len() ==> (#[trigger] field_shapes(fields)[i]) == (
                fields[i].0@,
                fields[i].1@,
            ),
    decreases fields.len(),
{
    if fields.len() > 0 {
        lemma_field_shapes(fields.drop_last());
        assert(field_shapes(fields) == field_shapes(fields.drop_last()).push(
            (fields.last().0@, fields.last().1@),
        ));
    }
}

proof fn lemma_field_leaves_step(fields: Seq<(Seq<char>, TypeShape)>, root: Seq<char>, i: int)
    requires
        0 <= i < fields.len(),
    ensures
        field_leaves(fields.take(i + 1), root) == field_leaves(fields.take(i), root) + leaves(
            fields[i].1,
            dotted(root, fields[i].0),
        ),
{
    assert(fields.take(i + 1).drop_last() =~= fields.take(i));
}

/// The type of a field of a structure is smaller than the structure.
proof fn lemma_field_smaller(structure: ChipType, i: int)
    requires
        structure is Struct,
        0 <= i < structure->Struct_0.1@.len(),
    ensures
        decreases_to!(structure => structure->Struct_0.1@[i].1),
{
    let body = structure->Struct_0;
    assert(decreases_to!(structure => structure->Struct_0));
    assert(decreases_to!(*body => body.1));
    assert(decreases_to!(body.1 => body.1@));
    assert(decreases_to!(body.1@ => body.1@[i]));
    assert(decreases_to!(body.1@[i] => body.1@[i].1));
}

/// The first fields of well-formed fields are well-formed.
proof fn lemma_first_fields_well_formed(fields: Seq<(Seq<char>, TypeShape)>, n: int)
    requires
        fields_well_formed(fields),
        0 <= n <= fields.len(),
    ensures
        fields_well_formed(fields.take(n)),
    decreases fields.len(),
{
    if n == fields.len() {
        assert(fields.take(n) =~= fields);
    } else {
        lemma_first_fields_well_formed(fields.drop_last(), n);
        assert(fields.drop_last().take(n) =~= fields.take(n));
    }
}

/// Whether `name` holds no dot.
fn has_no_dot(name: &str) -> (out: bool)
    ensures
        out == dot_free(name@),
{
    let len = name.unicode_len();
    let mut i: usize = 0;
    while i < len
        invariant
            len == name@.len(),
            i <= len,
            forall|j: int| 0 <= j < i ==> name@[j] != '.',
        decreases len - i,
    {
        if name.get_char(i) == '.' {
            return false;
        }
        i += 1;
    }
    true
}

impl ChipType {
    /// Whether the type is well-formed: whether every structure in it has
    /// fields with names that hold no dot and of which no two are equal.
    pub fn is_well_formed(&self) -> (out: bool)
        ensures
            out == well_formed(self@),
        decreases self,
    {
        match self {
            ChipType::Primitive(_) => true,
            ChipType::Struct(body) => {
                let fields = &body.1;
                let ghost shapes = field_shapes(fields@);
                proof {
                    lemma_field_shapes(fields@);
                    assert(shapes.take(0) =~= Seq::empty());
                }
                let mut i: usize = 0;
                while i < fields.len()
                    invariant
                        i <= fields.len(),
                        fields == &body.1,
                        self == ChipType::Struct(*body),
                        shapes == field_shapes(fields@),
                        shapes.len() == fields.len(),
                        forall|j: int|
                            0 <= j < fields.len() ==> (#[trigger] shapes[j]) == (
                                fields@[j].0@,
                                fields@[j].1@,
                            ),
                        fields_well_formed(shapes.take(i as int)),
                    decreases fields.len() - i,
                {
                    proof {
                        lemma_field_smaller(*self, i as int);
                        assert(shapes.take(i + 1).drop_last() =~= shapes.take(i as int));
                        assert(shapes.take(i + 1).last() == shapes[i as int]);
                    }
                    let field = &fields[i];
                    let mut ok = has_no_dot(field.0.as_str()) && field.1.is_well_formed();
                    let mut j: usize = 0;
                    while ok && j < i
                        invariant
                            j <= i,
                            i < fields.len(),
                            field == &fields[i as int],
                            ok ==> forall|k: int| 0 <= k < j ==> fields@[k].0@ != field.0@,
                            !ok ==> !fields_well_formed(shapes.take(i + 1)),
                            ok ==> dot_free(shapes[i as int].0) && well_formed(shapes[i as int].1),
                            shapes.len() == fields.len(),
                            shapes.take(i + 1).last() == shapes[i as int],
                            forall|k: int|
                                0 <= k < fields.len() ==> (#[trigger] shapes[k]) == (
                                    fields@[k].0@,
                                    fields@[k].1@,
                                ),
                        decreases i - j,
                    {
                        if same_text(fields[j].0.as_str(), field.0.as_str()) {
                            proof {
                                assert(shapes.take(i + 1)[j as int] == shapes[j as int]);
                            }
                            ok = false;
                        }
                        j += 1;
                    }
                    if !ok {
                        proof {
                            if fields_well_formed(shapes) {
                                lemma_first_fields_well_formed(shapes, i + 1);
                            }
                        }
                        return false;
                    }
                    proof {
                        assert forall|k: int| 0 <= k < shapes.take(i + 1).len() - 1 implies (
                        #[trigger] shapes.take(i + 1)[k]).0 != shapes.take(i + 1).last().0 by {
                            assert(shapes.take(i + 1)[k] == shapes[k]);
                        }
                    }
                    i += 1;
                }
                proof {
                    assert(shapes.take(fields.len() as int) =~= shapes);
                }
                true
            },
        }
    }

    /// The printed name of the type.
    pub fn display_name(&self) -> (out: String)
        ensures
            out@ == type_text(self@),
    {
        match self {
            ChipType::Struct(body) => body.0.clone(),
            ChipType::Primitive(Primitive::F64) => String::from_str("F64"),
            ChipType::Primitive(Primitive::I64) => String::from_str("I64"),
        }
    }

    /// Whether two types have the same shape: the same scalar kind, or the
    /// same structure name and, field by field, the same names and types.
    pub fn same_type(&self, other: &ChipType) -> (same: bool)
        ensures
            same == (self@ == other@),
        decreases self,
    {
        match (self, other) {
            (ChipType::Primitive(left), ChipType::Primitive(right)) => *left == *right,
            (ChipType::Struct(left), ChipType::Struct(right)) => {
                let left_fields = &left.1;
                let right_fields = &right.1;
                proof {
                    lemma_field_shapes(left_fields@);
                    lemma_field_shapes(right_fields@);
                }
                if !(left.0 == right.0) || left_fields.len() != right_fields.len() {
                    return false;
                }
                let mut i: usize = 0;
                while i < left_fields.len()
                    invariant
                        i <= left_fields.len(),
                        left_fields.len() == right_fields.len(),
                        left_fields == &left.1,
                        right_fields == &right.1,
                        self == ChipType::Struct(*left),
                        other == ChipType::Struct(*right),
                        forall|j: int|
                            0 <= j < i ==> (left_fields@[j].0@, left_fields@[j].1@) == (
                                right_fields@[j].0@,
                                right_fields@[j].1@,
                            ),
                        forall|j: int|
                            0 <= j < left_fields.len() ==> (#[trigger] field_shapes(
                                left_fields@,
                            )[j]) == (left_fields@[j].0@, left_fields@[j].1@),
                        forall|j: int|
                            0 <= j < right_fields.len() ==> (#[trigger] field_shapes(
                                right_fields@,
                            )[j]) == (right_fields@[j].0@, right_fields@[j].1@),
                        field_shapes(left_fields@).len() == left_fields.len(),
                        field_shapes(right_fields@).len() == right_fields.len(),
                    decreases left_fields.len() - i,
                {
                    proof {
                        lemma_field_smaller(*self, i as int);
                    }
                    if !(left_fields[i].0 == right_fields[i].0) || !left_fields[i].1.same_type(
                        &right_fields[i].1,
                    ) {
                        proof {
                            assert(field_shapes(left_fields@)[i as int] != field_shapes(
                                right_fields@,
                            )[i as int]);
                        }
                        return false;
                    }
                    i += 1;
                }
                proof {
                    assert(field_shapes(left_fields@) =~= field_shapes(right_fields@));
                }
                true
            },
            _ => false,
        }
    }

    /// Lowers the type to its ordered path map: one entry per scalar leaf,
    /// keyed by the leaf's dotted path below `name`, in depth-first field
    /// order.
    pub fn flatten(&self, name: &str) -> (map: LinkedHashMap<String, Primitive>)
        ensures
            path_entries(map) == flat_map(self@, name@),
    {
        let mut map = new_path_map();
        ChipType::flatten_inner(name, self, &mut map);
        map
    }

    fn flatten_inner(name: &str, type_: &ChipType, map: &mut LinkedHashMap<String, Primitive>)
        ensures
            path_entries(*final(map)) == insert_all(
                path_entries(*old(map)),
                leaves(type_@, name@),
            ),
        decreases type_,
    {
        match type_ {
            ChipType::Struct(body) => {
                let fields = &body.1;
                let ghost shapes = field_shapes(fields@);
                proof {
                    lemma_field_shapes(fields@);
                    assert(shapes.take(0) =~= Seq::empty());
                }
                let mut i: usize = 0;
                while i < fields.len()
                    invariant
                        i <= fields.len(),
                        fields == &body.1,
                        type_ == ChipType::Struct(*body),
                        shapes == field_shapes(fields@),
                        shapes.len() == fields.len(),
                        forall|j: int|
                            0 <= j < fields.len() ==> (#[trigger] shapes[j]) == (
                                fields@[j].0@,
                                fields@[j].1@,
                            ),
                        path_entries(*map) == insert_all(
                            path_entries(*old(map)),
                            field_leaves(shapes.take(i as int), name@),
                        ),
                    decreases fields.len() - i,
                {
                    let field = &fields[i];
                    let mut recurse_name = String::from_str(name);
                    recurse_name.append(".");
                    recurse_name.append(field.0.as_str());
                    proof {
                        reveal_strlit(".");
                        assert("."@ =~= seq!['.']);
                        assert(recurse_name@ =~= dotted(name@, field.0@));
                        lemma_field_smaller(*type_, i as int);
                        lemma_field_leaves_step(shapes, name@, i as int);
                        lemma_insert_all_concat(
                            path_entries(*old(map)),
                            field_leaves(shapes.take(i as int), name@),
                            leaves(field.1@, recurse_name@),
                        );
                    }
                    ChipType::flatten_inner(recurse_name.as_str(), &field.1, map);
                    i += 1;
                }
                proof {
                    assert(shapes.take(fields.len() as int) =~= shapes);
                }
            },
            ChipType::Primitive(primitive) => {
                path_map_insert(map, String::from_str(name), *primitive);
                proof {
                    let items = leaves(type_@, name@);
                    assert(items.drop_last() =~= Seq::<Leaf>::empty());
                    assert(insert_all(path_entries(*old(map)), items.drop_last()) == path_entries(
                        *old(map),
                    ));
                }
            },
        }
    }
}

} // verus!
