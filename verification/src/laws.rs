//! What holds of flattening, checking and code generation in general.

use crate::ast::{path_text, Ident, IdentList, Opcode, Statement};
use crate::checking::{check, check_all};
use crate::diagnostics::{
    incompatible_operands, let_hint, suggested_binding, undefined_identifier, DiagnosticShape,
};
use crate::locals::{declared, with_leaves, Binding};
use crate::types::{
    distinct_paths, dot_free, dotted, field_leaves, field_maps, fields_well_formed, flat_map,
    insert_all, leaves, not_at, paths, rooted, well_formed, Leaf, Primitive, TypeShape,
};
use crate::wasm::{
    allocated, arity, discarded, drops, generate, generate_all, loads, net_effect, slot_of,
    slots_of, stack_effect, stores, yield_count, Emission, Fault, Instr,
};
use vstd::prelude::*;
use walrus::LocalId;

verus! {

/// Whether `path` lies at or below `root`: it is `root`, or `root` with a
/// dot and more behind it.
pub open spec fn below(path: Seq<char>, root: Seq<char>) -> bool {
    &&& path.len() >= root.len()
    &&& path.take(root.len() as int) == root
    &&& path.len() > root.len() ==> path[root.len() as int] == '.'
}

proof fn lemma_below_field(path: Seq<char>, root: Seq<char>, field: Seq<char>)
    requires
        below(path, dotted(root, field)),
    ensures
        below(path, root),
        path.len() > root.len(),
{
    let full = dotted(root, field);
    assert(full.len() == root.len() + 1 + field.len());
    assert(path.take(root.len() as int) =~= root) by {
        assert forall|i: int| 0 <= i < root.len() implies path[i] == root[i] by {
            assert(path.take(full.len() as int)[i] == full[i]);
        }
    }
    assert(path.take(full.len() as int)[root.len() as int] == full[root.len() as int]);
}

/// Paths below two fields with different names, neither of which holds a
/// dot, differ.
proof fn lemma_fields_diverge(
    first: Seq<char>,
    second: Seq<char>,
    root: Seq<char>,
    a: Seq<char>,
    b: Seq<char>,
)
    requires
        a != b,
        dot_free(a),
        dot_free(b),
        below(first, dotted(root, a)),
        below(second, dotted(root, b)),
    ensures
        first != second,
{
    let base: int = root.len() as int + 1;
    let left = dotted(root, a);
    let right = dotted(root, b);
    assert(left.len() == base + a.len());
    assert(right.len() == base + b.len());
    assert forall|i: int| 0 <= i < a.len() implies first[base + i] == a[i] by {
        assert(first.take(left.len() as int)[base + i] == left[base + i]);
    }
    assert forall|i: int| 0 <= i < b.len() implies second[base + i] == b[i] by {
        assert(second.take(right.len() as int)[base + i] == right[base + i]);
    }
    if first == second {
        if a.len() == b.len() {
            assert(a =~= b);
        } else if a.len() < b.len() {
            assert(second[base + a.len()] == b[a.len() as int]);
        } else {
            assert(first[base + b.len()] == a[b.len() as int]);
        }
    }
}

/// The leaves of a well-formed type lie at or below the root and have paths
/// of their own.
proof fn lemma_leaves_distinct(shape: TypeShape, root: Seq<char>)
    requires
        well_formed(shape),
    ensures
        distinct_paths(leaves(shape, root)),
        forall|i: int|
            0 <= i < leaves(shape, root).len() ==> below(
                (#[trigger] leaves(shape, root)[i]).0,
                root,
            ),
    decreases shape, 1int,
{
    match shape {
        TypeShape::Primitive(kind) => {
            assert(root.take(root.len() as int) =~= root);
        },
        TypeShape::Struct(_, fields) => {
            lemma_field_leaves_distinct(fields, root);
            let items = field_leaves(fields, root);
            assert forall|i: int| 0 <= i < items.len() implies below(
                (#[trigger] items[i]).0,
                root,
            ) by {
                let k = choose|k: int|
                    0 <= k < fields.len() && below(items[i].0, dotted(root, fields[k].0));
                lemma_below_field(items[i].0, root, fields[k].0);
            }
        },
    }
}

/// The leaves of well-formed fields each lie below one of the fields and have
/// paths of their own.
proof fn lemma_field_leaves_distinct(fields: Seq<(Seq<char>, TypeShape)>, root: Seq<char>)
    requires
        fields_well_formed(fields),
    ensures
        distinct_paths(field_leaves(fields, root)),
        forall|i: int|
            0 <= i < field_leaves(fields, root).len() ==> exists|k: int|
                0 <= k < fields.len() && below(
                    (#[trigger] field_leaves(fields, root)[i]).0,
                    dotted(root, fields[k].0),
                ),
    decreases fields, 0int,
{
    if fields.len() > 0 {
        let before = fields.drop_last();
        let last = fields.last();
        let last_root = dotted(root, last.0);
        lemma_field_leaves_distinct(before, root);
        lemma_leaves_distinct(last.1, last_root);
        let old_items = field_leaves(before, root);
        let new_items = leaves(last.1, last_root);
        let items = field_leaves(fields, root);
        assert(items == old_items + new_items);
        assert forall|i: int| 0 <= i < items.len() implies exists|k: int|
            0 <= k < fields.len() && below((#[trigger] items[i]).0, dotted(root, fields[k].0)) by {
            if i < old_items.len() {
                let k = choose|k: int|
                    0 <= k < before.len() && below(old_items[i].0, dotted(root, before[k].0));
                assert(fields[k] == before[k]);
                assert(below(items[i].0, dotted(root, fields[k].0)));
            } else {
                assert(items[i] == new_items[i - old_items.len()]);
                assert(below(items[i].0, dotted(root, fields[fields.len() - 1].0)));
            }
        }
        assert forall|i: int, j: int| 0 <= i < j < items.len() implies items[i].0
            != items[j].0 by {
            if j < old_items.len() {
                assert(items[i] == old_items[i] && items[j] == old_items[j]);
            } else if i >= old_items.len() {
                assert(items[i] == new_items[i - old_items.len()]);
                assert(items[j] == new_items[j - old_items.len()]);
            } else {
                let k = choose|k: int|
                    0 <= k < before.len() && below(old_items[i].0, dotted(root, before[k].0));
                assert(fields[k] == before[k]);
                assert(items[j] == new_items[j - old_items.len()]);
                lemma_dot_free_fields(fields, k);
                lemma_fields_diverge(items[i].0, items[j].0, root, fields[k].0, last.0);
            }
        }
    }
}

proof fn lemma_dot_free_fields(fields: Seq<(Seq<char>, TypeShape)>, k: int)
    requires
        fields_well_formed(fields),
        0 <= k < fields.len(),
    ensures
        dot_free(fields[k].0),
        well_formed(fields[k].1),
    decreases fields.len(),
{
    if k < fields.len() - 1 {
        lemma_dot_free_fields(fields.drop_last(), k);
    }
}

proof fn lemma_filter_keeps_all(items: Seq<Leaf>, key: Seq<char>)
    requires
        forall|i: int| 0 <= i < items.len() ==> (#[trigger] items[i]).0 != key,
    ensures
        items.filter(not_at(key)) == items,
    decreases items.len(),
{
    reveal(Seq::filter);
    if items.len() > 0 {
        lemma_filter_keeps_all(items.drop_last(), key);
        assert(items.drop_last().push(items.last()) =~= items);
    }
}

/// Leaves with paths of their own are all kept, in their order, by an
/// insertion-ordered map.
proof fn lemma_insert_distinct(items: Seq<Leaf>)
    requires
        distinct_paths(items),
    ensures
        insert_all(Seq::empty(), items) == items,
    decreases items.len(),
{
    if items.len() > 0 {
        lemma_insert_distinct(items.drop_last());
        lemma_filter_keeps_all(items.drop_last(), items.last().0);
        assert(items.drop_last().push(items.last()) =~= items);
    } else {
        assert(items =~= Seq::empty());
    }
}

/// Flattening leaves no leaf out: the path map of a well-formed type holds
/// one entry for each scalar leaf of the type, in depth-first field order,
/// and no two entries have the same path.
pub proof fn law_flatten_keeps_every_leaf(shape: TypeShape, root: Seq<char>)
    requires
        well_formed(shape),
    ensures
        flat_map(shape, root) == leaves(shape, root),
        distinct_paths(flat_map(shape, root)),
{
    lemma_leaves_distinct(shape, root);
    lemma_insert_distinct(leaves(shape, root));
}

/// What stays of leaves when those at the path `key` are taken out: leaves of
/// the list, none of them at `key`, with paths of their own if the list's
/// leaves had paths of their own; and every leaf at another path stays.
proof fn lemma_filter_sub(items: Seq<Leaf>, key: Seq<char>)
    ensures
        forall|i: int|
            0 <= i < items.filter(not_at(key)).len() ==> (#[trigger] items.filter(
                not_at(key),
            )[i]).0 != key && items.contains(items.filter(not_at(key))[i]),
        forall|i: int|
            0 <= i < items.len() && items[i].0 != key ==> items.filter(not_at(key)).contains(
                #[trigger] items[i],
            ),
        distinct_paths(items) ==> distinct_paths(items.filter(not_at(key))),
    decreases items.len(),
{
    reveal(Seq::filter);
    let kept = items.filter(not_at(key));
    if items.len() > 0 {
        let before = items.drop_last();
        let kept_before = before.filter(not_at(key));
        lemma_filter_sub(before, key);
        assert forall|i: int| 0 <= i < kept.len() implies (#[trigger] kept[i]).0 != key
            && items.contains(kept[i]) by {
            if i < kept_before.len() {
                assert(kept[i] == kept_before[i]);
                let j = choose|j: int| 0 <= j < before.len() && before[j] == kept_before[i];
                assert(items[j] == kept[i]);
            } else {
                assert(items[items.len() - 1] == kept[i]);
            }
        }
        assert forall|i: int| 0 <= i < items.len() && items[i].0 != key implies kept.contains(
            #[trigger] items[i],
        ) by {
            if i < before.len() {
                assert(before[i] == items[i]);
                let j = choose|j: int| 0 <= j < kept_before.len() && kept_before[j] == before[i];
                assert(kept[j] == items[i]);
            } else {
                assert(kept[kept.len() - 1] == items[i]);
            }
        }
        if distinct_paths(items) {
            assert(distinct_paths(before)) by {
                assert forall|i: int, j: int| 0 <= i < j < before.len() implies before[i].0
                    != before[j].0 by {
                    assert(before[i] == items[i] && before[j] == items[j]);
                }
            }
            assert forall|i: int, j: int| 0 <= i < j < kept.len() implies kept[i].0
                != kept[j].0 by {
                if j < kept_before.len() {
                    assert(kept[i] == kept_before[i] && kept[j] == kept_before[j]);
                } else {
                    assert(kept[i] == kept_before[i]);
                    let k = choose|k: int| 0 <= k < before.len() && before[k] == kept_before[i];
                    assert(items[k] == kept[i]);
                    assert(kept[j] == items[items.len() - 1]);
                }
            }
        }
    }
}

/// An insertion-ordered map never holds two entries at one path, and holds
/// an entry at every path that was inserted.
proof fn lemma_insert_all_paths(entries: Seq<Leaf>, items: Seq<Leaf>)
    requires
        distinct_paths(entries),
    ensures
        distinct_paths(insert_all(entries, items)),
        forall|i: int|
            0 <= i < items.len() ==> exists|j: int|
                0 <= j < insert_all(entries, items).len() && insert_all(entries, items)[j].0 == (
                #[trigger] items[i]).0,
    decreases items.len(),
{
    if items.len() > 0 {
        let before = insert_all(entries, items.drop_last());
        let last = items.last();
        let kept = before.filter(not_at(last.0));
        let all = insert_all(entries, items);
        lemma_insert_all_paths(entries, items.drop_last());
        lemma_filter_sub(before, last.0);
        assert(all == kept.push(last));
        assert forall|i: int, j: int| 0 <= i < j < all.len() implies all[i].0 != all[j].0 by {
            if j < kept.len() {
                assert(all[i] == kept[i] && all[j] == kept[j]);
            } else {
                assert(all[i] == kept[i]);
            }
        }
        assert forall|i: int| 0 <= i < items.len() implies exists|j: int|
            0 <= j < all.len() && all[j].0 == (#[trigger] items[i]).0 by {
            if i < items.len() - 1 && items[i].0 != last.0 {
                assert(items.drop_last()[i] == items[i]);
                let j = choose|j: int| 0 <= j < before.len() && before[j].0 == items[i].0;
                assert(kept.contains(before[j]));
                let k = choose|k: int| 0 <= k < kept.len() && kept[k] == before[j];
                assert(all[k].0 == items[i].0);
            } else {
                assert(all[all.len() - 1].0 == items[i].0);
            }
        }
    }
}

/// Flattening never gives two leaves one path, and never leaves a path out:
/// no two entries of the path map of a type have the same path, and the path
/// of every scalar leaf of the type is the path of an entry.
pub proof fn law_flatten_paths(shape: TypeShape, root: Seq<char>)
    ensures
        distinct_paths(flat_map(shape, root)),
        forall|i: int|
            0 <= i < leaves(shape, root).len() ==> exists|j: int|
                0 <= j < flat_map(shape, root).len() && flat_map(shape, root)[j].0 == (
                #[trigger] leaves(shape, root)[i]).0,
{
    let items = leaves(shape, root);
    let all = flat_map(shape, root);
    lemma_insert_all_paths(Seq::empty(), items);
    assert forall|i: int| 0 <= i < items.len() implies exists|j: int|
        0 <= j < all.len() && all[j].0 == (#[trigger] items[i]).0 by {
        let j = choose|j: int|
            0 <= j < insert_all(Seq::empty(), items).len() && insert_all(
                Seq::empty(),
                items,
            )[j].0 == items[i].0;
        assert(all[j].0 == items[i].0);
    }
}

proof fn lemma_field_maps(fields: Seq<(Seq<char>, TypeShape)>, root: Seq<char>)
    requires
        fields_well_formed(fields),
    ensures
        field_maps(fields, root) == field_leaves(fields, root),
    decreases fields.len(),
{
    if fields.len() > 0 {
        lemma_field_maps(fields.drop_last(), root);
        law_flatten_keeps_every_leaf(fields.last().1, dotted(root, fields.last().0));
    }
}

/// Flattening keeps the field order: the path map of a well-formed structure
/// is the path map of its first field below the field's path, then that of
/// its second field, and so on; so are its keys.
pub proof fn law_flatten_in_field_order(
    name: Seq<char>,
    fields: Seq<(Seq<char>, TypeShape)>,
    root: Seq<char>,
)
    requires
        well_formed(TypeShape::Struct(name, fields)),
    ensures
        flat_map(TypeShape::Struct(name, fields), root) == field_maps(fields, root),
        paths(flat_map(TypeShape::Struct(name, fields), root)) == paths(field_maps(fields, root)),
{
    law_flatten_keeps_every_leaf(TypeShape::Struct(name, fields), root);
    lemma_field_maps(fields, root);
}

proof fn lemma_rooted_leaves(shape: TypeShape, root: Seq<char>)
    ensures
        leaves(shape, root) == rooted(leaves(shape, Seq::empty()), root),
    decreases shape, 1int,
{
    match shape {
        TypeShape::Primitive(kind) => {
            assert(root + Seq::<char>::empty() =~= root);
            assert(leaves(shape, root) =~= rooted(leaves(shape, Seq::empty()), root));
        },
        TypeShape::Struct(_, fields) => {
            lemma_rooted_field_leaves(fields, root);
        },
    }
}

proof fn lemma_rooted_field_leaves(fields: Seq<(Seq<char>, TypeShape)>, root: Seq<char>)
    ensures
        field_leaves(fields, root) == rooted(field_leaves(fields, Seq::empty()), root),
    decreases fields, 0int,
{
    let none = Seq::<char>::empty();
    if fields.len() == 0 {
        assert(field_leaves(fields, root) =~= rooted(field_leaves(fields, none), root));
    } else {
        let before = fields.drop_last();
        let last = fields.last();
        lemma_rooted_field_leaves(before, root);
        lemma_rooted_leaves(last.1, dotted(root, last.0));
        lemma_rooted_leaves(last.1, dotted(none, last.0));
        let bare = leaves(last.1, none);
        let inner = rooted(bare, dotted(none, last.0));
        let outer = rooted(bare, dotted(root, last.0));
        assert(rooted(inner, root) =~= outer) by {
            assert forall|i: int| 0 <= i < bare.len() implies root + (dotted(none, last.0)
                + bare[i].0) == dotted(root, last.0) + bare[i].0 by {
                assert(root + (dotted(none, last.0) + bare[i].0) =~= dotted(root, last.0)
                    + bare[i].0);
            }
        }
        assert(rooted(field_leaves(before, none) + inner, root) =~= rooted(
            field_leaves(before, none),
            root,
        ) + rooted(inner, root));
    }
}

proof fn lemma_rooted_key(root: Seq<char>, first: Seq<char>, second: Seq<char>)
    ensures
        (root + first == root + second) == (first == second),
{
    if root + first == root + second {
        assert((root + first).skip(root.len() as int) =~= first);
        assert((root + second).skip(root.len() as int) =~= second);
    }
}

proof fn lemma_rooted_filter(items: Seq<Leaf>, root: Seq<char>, key: Seq<char>)
    ensures
        rooted(items, root).filter(not_at(root + key)) == rooted(
            items.filter(not_at(key)),
            root,
        ),
    decreases items.len(),
{
    reveal(Seq::filter);
    if items.len() == 0 {
        assert(rooted(items, root) =~= Seq::empty());
        assert(rooted(items.filter(not_at(key)), root) =~= Seq::empty());
    } else {
        let before = items.drop_last();
        lemma_rooted_filter(before, root, key);
        lemma_rooted_key(root, items.last().0, key);
        assert(rooted(items, root).drop_last() =~= rooted(before, root));
        assert(rooted(items, root).last() == (root + items.last().0, items.last().1));
        if items.last().0 != key {
            assert(rooted(before.filter(not_at(key)).push(items.last()), root) =~= rooted(
                before.filter(not_at(key)),
                root,
            ).push((root + items.last().0, items.last().1)));
        }
    }
}

proof fn lemma_rooted_insert_all(entries: Seq<Leaf>, items: Seq<Leaf>, root: Seq<char>)
    ensures
        insert_all(rooted(entries, root), rooted(items, root)) == rooted(
            insert_all(entries, items),
            root,
        ),
    decreases items.len(),
{
    if items.len() == 0 {
        assert(rooted(items, root) =~= Seq::empty());
    } else {
        let before = insert_all(entries, items.drop_last());
        let last = items.last();
        lemma_rooted_insert_all(entries, items.drop_last(), root);
        lemma_rooted_filter(before, root, last.0);
        assert(rooted(items, root).drop_last() =~= rooted(items.drop_last(), root));
        assert(rooted(items, root).last() == (root + last.0, last.1));
        assert(rooted(before.filter(not_at(last.0)).push(last), root) =~= rooted(
            before.filter(not_at(last.0)),
            root,
        ).push((root + last.0, last.1)));
    }
}

/// Flattening depends on the root by its paths alone: the path map of a type
/// below a root is its path map below the empty root with the root put
/// before each path. So a type has as many entries below one root as below
/// another.
pub proof fn law_flatten_below_root(shape: TypeShape, root: Seq<char>)
    ensures
        flat_map(shape, root) == rooted(flat_map(shape, Seq::empty()), root),
        flat_map(shape, root).len() == arity(shape),
{
    lemma_rooted_leaves(shape, root);
    lemma_rooted_insert_all(Seq::empty(), leaves(shape, Seq::empty()), root);
    assert(rooted(Seq::<Leaf>::empty(), root) =~= Seq::empty());
}

/// The operands of an operation agree in type: where the left operand checks
/// to a scalar and the right one, checked after it, to a scalar too, the
/// operation has their type if they are of one kind, and fails with the
/// diagnostic of incompatible types, which labels each operand with its type,
/// if they are not.
pub proof fn law_operator_types_agree<L>(
    left: Statement,
    op: Opcode,
    right: Statement,
    range: (usize, usize),
    table: Map<Seq<char>, Binding<L>>,
    left_kind: Primitive,
    right_kind: Primitive,
)
    requires
        check(left, table).verdict matches Ok((Some(shape), _)) && shape == TypeShape::Primitive(
            left_kind,
        ),
        check(right, check(left, table).table).verdict matches Ok((Some(shape), _)) && shape
            == TypeShape::Primitive(right_kind),
    ensures
        left_kind == right_kind ==> check(
            Statement::Op(Box::new(left), op, Box::new(right), range),
            table,
        ).verdict == Ok::<_, DiagnosticShape>((Some(TypeShape::Primitive(left_kind)), range)),
        left_kind != right_kind ==> check(
            Statement::Op(Box::new(left), op, Box::new(right), range),
            table,
        ).verdict == Err::<(Option<TypeShape>, (usize, usize)), _>(
            incompatible_operands(
                range,
                check(left, table).verdict->Ok_0.1,
                TypeShape::Primitive(left_kind),
                check(right, check(left, table).table).verdict->Ok_0.1,
                TypeShape::Primitive(right_kind),
            ),
        ),
{
}

/// A name that nothing binds is undefined: checking a reference to a name
/// that the table does not hold fails with the diagnostic of an undefined
/// identifier, whose one note suggests a `let` statement that binds the name.
pub proof fn law_undefined_identifier<L>(
    name: Ident,
    range: (usize, usize),
    table: Map<Seq<char>, Binding<L>>,
)
    requires
        !table.dom().contains(name.0@),
    ensures
        check(Statement::Ident(name, range), table).verdict == Err::<
            (Option<TypeShape>, (usize, usize)),
            _,
        >(undefined_identifier(name.0@, range)),
        check(Statement::Ident(name, range), table).table == table,
        undefined_identifier(name.0@, range).notes == seq![let_hint(name.0@)],
        let_hint(name.0@) == "Hint: define `"@ + name.0@ + "` with a let-binding\n\ne.g. `"@
            + suggested_binding(name.0@) + "`"@,
{
}

proof fn lemma_slots(table: Map<Seq<char>, Binding<LocalId>>, items: Seq<Leaf>)
    requires
        slots_of(table, items) is Ok,
    ensures
        slots_of(table, items)->Ok_0.len() == items.len(),
        forall|i: int|
            0 <= i < items.len() ==> slot_of(table, (#[trigger] items[i]).0) == Ok::<_, Fault>(
                slots_of(table, items)->Ok_0[i],
            ),
    decreases items.len(),
{
    if items.len() > 0 {
        let before = items.drop_last();
        lemma_slots(table, before);
        let slots = slots_of(table, items)->Ok_0;
        let slots_before = slots_of(table, before)->Ok_0;
        assert(slots == slots_before.push(slot_of(table, items.last().0)->Ok_0));
        assert forall|i: int| 0 <= i < items.len() implies slot_of(
            table,
            (#[trigger] items[i]).0,
        ) == Ok::<_, Fault>(slots[i]) by {
            if i < before.len() {
                assert(before[i] == items[i]);
                assert(slots[i] == slots_before[i]);
            }
        }
    }
}

/// An assignment of one name to another loads and stores slot by slot: where
/// the assigned path and the name on the right-hand side are bound to one
/// type with `n` entries in its path map, and every leaf of both has a slot,
/// the code that is generated for the assignment is `n` loads, of the slots of
/// the right-hand side's leaves in flattening order, and then `n` stores, to
/// the slots of the assigned path's leaves in the reverse of flattening
/// order; nothing else changes.
pub proof fn law_assignment_slots(
    target: IdentList,
    source: Ident,
    source_range: (usize, usize),
    range: (usize, usize),
    state: Emission,
    ids: spec_fn(nat) -> LocalId,
    shape: TypeShape,
)
    requires
        state.table.dom().contains(source.0@),
        state.table[source.0@].1 == shape,
        state.table.dom().contains(path_text(target.0@)),
        state.table[path_text(target.0@)].1 == shape,
        slots_of(state.table, flat_map(shape, source.0@)) is Ok,
        slots_of(state.table, flat_map(shape, path_text(target.0@))) is Ok,
    ensures
        ({
            let run = generate(
                Statement::Assign(
                    target,
                    Box::new(Statement::Ident(source, source_range)),
                    range,
                ),
                state,
                ids,
            );
            let read = flat_map(shape, source.0@);
            let written = flat_map(shape, path_text(target.0@));
            let n = arity(shape) as int;
            let start = state.code.len() as int;
            &&& run.outcome == Ok::<Option<TypeShape>, Fault>(None)
            &&& run.state.table == state.table
            &&& run.state.slots == state.slots
            &&& read.len() == n
            &&& written.len() == n
            &&& run.state.code.len() == start + n + n
            &&& run.state.code.take(start) == state.code
            &&& forall|i: int|
                0 <= i < n ==> slot_of(state.table, read[i].0) == Ok::<_, Fault>(
                    run.state.code[start + i]->LocalGet_0,
                ) && (#[trigger] run.state.code[start + i]) is LocalGet
            &&& forall|i: int|
                0 <= i < n ==> slot_of(state.table, written[n - 1 - i].0) == Ok::<_, Fault>(
                    run.state.code[start + n + i]->LocalSet_0,
                ) && (#[trigger] run.state.code[start + n + i]) is LocalSet
        }),
{
    let read = flat_map(shape, source.0@);
    let written = flat_map(shape, path_text(target.0@));
    law_flatten_below_root(shape, source.0@);
    law_flatten_below_root(shape, path_text(target.0@));
    lemma_slots(state.table, read);
    lemma_slots(state.table, written);
    let run = generate(
        Statement::Assign(target, Box::new(Statement::Ident(source, source_range)), range),
        state,
        ids,
    );
    let read_slots = slots_of(state.table, read)->Ok_0;
    let written_slots = slots_of(state.table, written)->Ok_0;
    let loaded = generate(Statement::Ident(source, source_range), state, ids);
    assert(loaded.outcome == Ok::<Option<TypeShape>, Fault>(Some(shape)));
    assert(loaded.state.code == state.code + loads(read_slots));
    assert(loaded.state.table == state.table);
    assert(run.state.code == state.code + loads(read_slots) + stores(written_slots));
    assert(run.state.code.take(state.code.len() as int) =~= state.code);
    let n = arity(shape) as int;
    let start = state.code.len() as int;
    assert forall|i: int| 0 <= i < n implies slot_of(state.table, read[i].0) == Ok::<_, Fault>(
        run.state.code[start + i]->LocalGet_0,
    ) && (#[trigger] run.state.code[start + i]) is LocalGet by {
        assert(run.state.code[start + i] == loads(read_slots)[i]);
    }
    assert forall|i: int| 0 <= i < n implies slot_of(state.table, written[n - 1 - i].0) == Ok::<
        _,
        Fault,
    >(run.state.code[start + n + i]->LocalSet_0) && (#[trigger] run.state.code[start + n
        + i]) is LocalSet by {
        assert(run.state.code[start + n + i] == stores(written_slots)[i]);
    }
}

proof fn lemma_net_effect_concat(first: Seq<Instr>, second: Seq<Instr>)
    ensures
        net_effect(first + second) == net_effect(first) + net_effect(second),
    decreases second.len(),
{
    if second.len() == 0 {
        assert(first + second =~= first);
    } else {
        lemma_net_effect_concat(first, second.drop_last());
        assert((first + second).drop_last() =~= first + second.drop_last());
        assert((first + second).last() == second.last());
    }
}

proof fn lemma_net_effect_push(code: Seq<Instr>, instr: Instr)
    ensures
        net_effect(code.push(instr)) == net_effect(code) + stack_effect(instr),
{
    assert(code.push(instr).drop_last() =~= code);
}

proof fn lemma_net_effect_loads(slots: Seq<LocalId>)
    ensures
        net_effect(loads(slots)) == slots.len(),
    decreases slots.len(),
{
    if slots.len() > 0 {
        lemma_net_effect_loads(slots.drop_last());
        assert(loads(slots).drop_last() =~= loads(slots.drop_last()));
    }
}

proof fn lemma_net_effect_stores(slots: Seq<LocalId>)
    ensures
        net_effect(stores(slots)) == -slots.len(),
    decreases slots.len(),
{
    if slots.len() > 0 {
        let rest = slots.drop_first();
        lemma_net_effect_stores(rest);
        assert(stores(slots).drop_last() =~= stores(rest));
    }
}

proof fn lemma_net_effect_drops(count: nat)
    ensures
        net_effect(drops(count)) == -count,
    decreases count,
{
    if count > 0 {
        lemma_net_effect_drops((count - 1) as nat);
        assert(drops(count).drop_last() =~= drops((count - 1) as nat));
    }
}

proof fn lemma_net_effect_allocated(state: Emission, items: Seq<Leaf>, ids: spec_fn(nat) -> LocalId)
    ensures
        net_effect(allocated(state, items, ids).code) == net_effect(state.code) - items.len(),
    decreases items.len(),
{
    if items.len() > 0 {
        let leaf = items.last();
        let id = ids(state.slots.len());
        let next = Emission {
            table: state.table.insert(leaf.0, (Some(id), TypeShape::Primitive(leaf.1))),
            code: state.code.push(Instr::LocalSet(id)),
            slots: state.slots.push(crate::wasm::value_type(leaf.1)),
        };
        lemma_net_effect_push(state.code, Instr::LocalSet(id));
        lemma_net_effect_allocated(next, items.drop_last(), ids);
    }
}

proof fn lemma_scalar_arity(kind: Primitive)
    ensures
        arity(TypeShape::Primitive(kind)) == 1,
{
    reveal(Seq::filter);
    let none = Seq::<char>::empty();
    let items = leaves(TypeShape::Primitive(kind), none);
    assert(items.drop_last() =~= Seq::<Leaf>::empty());
    assert(insert_all(Seq::<Leaf>::empty(), items.drop_last()) == Seq::<Leaf>::empty());
    assert(Seq::<Leaf>::empty().filter(not_at(none)) =~= Seq::<Leaf>::empty());
}

/// Generated code keeps the evaluation stack in balance: the code that is
/// generated for a statement without a fault adds to the stack exactly the
/// values that the statement yields, one for each entry of the path map of
/// the yielded type, and none for a statement that yields nothing.
pub proof fn law_stack_balance(statement: Statement, state: Emission, ids: spec_fn(nat) -> LocalId)
    ensures
        generate(statement, state, ids).outcome is Ok ==> net_effect(
            generate(statement, state, ids).state.code,
        ) == net_effect(state.code) + yield_count(generate(statement, state, ids).outcome->Ok_0),
    decreases statement, 1int,
{
    let run = generate(statement, state, ids);
    if run.outcome is Ok {
        match statement {
            Statement::Number(number, _) => {
                lemma_scalar_arity(number.kind()->Some_0);
                lemma_net_effect_push(state.code, Instr::Const(crate::wasm::constant(number)));
            },
            Statement::Op(left, op, right, _) => {
                let first = generate(*left, state, ids);
                let second = generate(*right, first.state, ids);
                law_stack_balance(*left, state, ids);
                law_stack_balance(*right, first.state, ids);
                let left_kind = first.outcome->Ok_0->Some_0->Primitive_0;
                let right_kind = second.outcome->Ok_0->Some_0->Primitive_0;
                lemma_scalar_arity(left_kind);
                lemma_scalar_arity(right_kind);
                lemma_net_effect_push(
                    second.state.code,
                    Instr::Binop(crate::wasm::machine_op(op, left_kind)),
                );
            },
            Statement::Ident(ident, _) => {
                let shape = state.table[ident.0@].1;
                let items = flat_map(shape, ident.0@);
                lemma_slots(state.table, items);
                law_flatten_below_root(shape, ident.0@);
                lemma_net_effect_loads(slots_of(state.table, items)->Ok_0);
                lemma_net_effect_concat(state.code, loads(slots_of(state.table, items)->Ok_0));
            },
            Statement::Assign(target, value, _) => {
                let assigned = generate(*value, state, ids);
                law_stack_balance(*value, state, ids);
                let path = path_text(target.0@);
                let shape = assigned.state.table[path].1;
                let items = flat_map(shape, path);
                lemma_slots(assigned.state.table, items);
                law_flatten_below_root(shape, path);
                let slots = slots_of(assigned.state.table, items)->Ok_0;
                lemma_net_effect_stores(slots);
                lemma_net_effect_concat(assigned.state.code, stores(slots));
            },
            Statement::LetAssign(ident, value, _) => {
                let initial = generate(*value, state, ids);
                law_stack_balance(*value, state, ids);
                let shape = initial.outcome->Ok_0->Some_0;
                law_flatten_below_root(shape, ident.0@);
                lemma_net_effect_allocated(
                    Emission {
                        table: initial.state.table.insert(ident.0@, (None, shape)),
                        ..initial.state
                    },
                    flat_map(shape, ident.0@),
                    ids,
                );
            },
            Statement::Block(statements, _) => {
                lemma_block_balance(statements.0@, state, ids);
            },
            _ => {},
        }
    }
}

proof fn lemma_block_balance(
    statements: Seq<Box<Statement>>,
    state: Emission,
    ids: spec_fn(nat) -> LocalId,
)
    ensures
        generate_all(statements, state, ids).outcome is Ok ==> net_effect(
            generate_all(statements, state, ids).state.code,
        ) == net_effect(state.code) + yield_count(
            generate_all(statements, state, ids).outcome->Ok_0,
        ),
    decreases statements, 0int,
{
    if statements.len() > 0 && generate_all(statements, state, ids).outcome is Ok {
        let before = generate_all(statements.drop_last(), state, ids);
        lemma_block_balance(statements.drop_last(), state, ids);
        let yielded = before.outcome->Ok_0;
        let cleared = discarded(before.state, yielded);
        if yielded is Some {
            lemma_net_effect_drops(arity(yielded->Some_0));
            lemma_net_effect_concat(before.state.code, drops(arity(yielded->Some_0)));
        }
        law_stack_balance(*statements.last(), cleared, ids);
    }
}

/// Whether two tables bind the same paths to the same types.
pub open spec fn same_types<A, B>(
    first: Map<Seq<char>, Binding<A>>,
    second: Map<Seq<char>, Binding<B>>,
) -> bool {
    forall|path: Seq<char>|
        #![trigger first.dom().contains(path)]
        #![trigger second.dom().contains(path)]
        first.dom().contains(path) == second.dom().contains(path) && (first.dom().contains(path)
            ==> first[path].1 == second[path].1)
}

/// The kind of the last of the leaves `items` at the path `path`, if there is
/// one.
spec fn kind_at(items: Seq<Leaf>, path: Seq<char>) -> Option<Primitive>
    decreases items.len(),
{
    if items.len() == 0 {
        None
    } else if items.last().0 == path {
        Some(items.last().1)
    } else {
        kind_at(items.drop_last(), path)
    }
}

proof fn lemma_kind_at_distinct(items: Seq<Leaf>, i: int)
    requires
        distinct_paths(items),
        0 <= i < items.len(),
    ensures
        kind_at(items, items[i].0) == Some(items[i].1),
        i == items.len() - 1 ==> kind_at(items.drop_last(), items[i].0) is None,
    decreases items.len(),
{
    if i < items.len() - 1 {
        assert(items.drop_last()[i] == items[i]);
        assert(distinct_paths(items.drop_last())) by {
            assert forall|a: int, b: int| 0 <= a < b < items.drop_last().len() implies items.drop_last()[a].0
                != items.drop_last()[b].0 by {
                assert(items.drop_last()[a] == items[a] && items.drop_last()[b] == items[b]);
            }
        }
        lemma_kind_at_distinct(items.drop_last(), i);
    } else {
        lemma_kind_at_absent(items.drop_last(), items[i].0);
    }
}

proof fn lemma_kind_at_absent(items: Seq<Leaf>, path: Seq<char>)
    requires
        forall|i: int| 0 <= i < items.len() ==> (#[trigger] items[i]).0 != path,
    ensures
        kind_at(items, path) is None,
    decreases items.len(),
{
    if items.len() > 0 {
        assert(items[items.len() - 1].0 != path);
        assert forall|i: int| 0 <= i < items.drop_last().len() implies (
        #[trigger] items.drop_last()[i]).0 != path by {
            assert(items.drop_last()[i] == items[i]);
        }
        lemma_kind_at_absent(items.drop_last(), path);
    }
}

proof fn lemma_with_leaves_at<L>(
    table: Map<Seq<char>, Binding<L>>,
    items: Seq<Leaf>,
    path: Seq<char>,
)
    ensures
        with_leaves(table, items).dom().contains(path) == (table.dom().contains(path) || kind_at(
            items,
            path,
        ) is Some),
        kind_at(items, path) matches Some(kind) ==> with_leaves(table, items)[path].1
            == TypeShape::Primitive(kind),
        kind_at(items, path) is None ==> with_leaves(table, items)[path] == table[path],
    decreases items.len(),
{
    if items.len() > 0 {
        lemma_with_leaves_at(table, items.drop_last(), path);
    }
}

proof fn lemma_allocated_at(
    state: Emission,
    items: Seq<Leaf>,
    ids: spec_fn(nat) -> LocalId,
    path: Seq<char>,
)
    requires
        distinct_paths(items),
    ensures
        allocated(state, items, ids).table.dom().contains(path) == (state.table.dom().contains(
            path,
        ) || kind_at(items, path) is Some),
        kind_at(items, path) matches Some(kind) ==> allocated(state, items, ids).table[path].1
            == TypeShape::Primitive(kind),
        kind_at(items, path) is None ==> allocated(state, items, ids).table[path]
            == state.table[path],
    decreases items.len(),
{
    if items.len() > 0 {
        let leaf = items.last();
        let id = ids(state.slots.len());
        let next = Emission {
            table: state.table.insert(leaf.0, (Some(id), TypeShape::Primitive(leaf.1))),
            code: state.code.push(Instr::LocalSet(id)),
            slots: state.slots.push(crate::wasm::value_type(leaf.1)),
        };
        let rest = items.drop_last();
        assert(distinct_paths(rest)) by {
            assert forall|a: int, b: int| 0 <= a < b < rest.len() implies rest[a].0
                != rest[b].0 by {
                assert(rest[a] == items[a] && rest[b] == items[b]);
            }
        }
        lemma_allocated_at(next, rest, ids, path);
        if leaf.0 == path {
            lemma_kind_at_distinct(items, items.len() - 1);
        }
    }
}

/// The two passes keep their tables alike: declaring a name in the checker
/// and allocating it in the generator bind the same paths to the same types.
proof fn lemma_declared_like_allocated<L>(
    table: Map<Seq<char>, Binding<L>>,
    state: Emission,
    name: Seq<char>,
    shape: TypeShape,
    ids: spec_fn(nat) -> LocalId,
)
    requires
        same_types(table, state.table),
    ensures
        same_types(
            declared(table, name, shape),
            allocated(
                Emission { table: state.table.insert(name, (None, shape)), ..state },
                flat_map(shape, name),
                ids,
            ).table,
        ),
{
    let items = flat_map(shape, name);
    let bound = table.insert(name, (None, shape));
    let start = Emission { table: state.table.insert(name, (None, shape)), ..state };
    let checked = declared(table, name, shape);
    let generated = allocated(start, items, ids).table;
    law_flatten_paths(shape, name);
    assert forall|path: Seq<char>|
        #![trigger checked.dom().contains(path)]
        #![trigger generated.dom().contains(path)]
        checked.dom().contains(path) == generated.dom().contains(path) && (checked.dom().contains(
            path,
        ) ==> checked[path].1 == generated[path].1) by {
        lemma_with_leaves_at(bound, items, path);
        lemma_allocated_at(start, items, ids, path);
        assert(table.dom().contains(path) == state.table.dom().contains(path));
    }
}

/// The two passes agree: where a statement checks against a table and code
/// is generated for it without a fault against a table that binds the same
/// paths to the same types, the generator yields the type that the checker
/// found, and the two tables bind the same paths to the same types
/// afterwards.
pub proof fn law_passes_agree<L>(
    statement: Statement,
    table: Map<Seq<char>, Binding<L>>,
    state: Emission,
    ids: spec_fn(nat) -> LocalId,
)
    requires
        same_types(table, state.table),
        check(statement, table).verdict is Ok,
        generate(statement, state, ids).outcome is Ok,
    ensures
        check(statement, table).verdict->Ok_0.0 == generate(statement, state, ids).outcome->Ok_0,
        same_types(check(statement, table).table, generate(statement, state, ids).state.table),
    decreases statement, 1int,
{
    match statement {
        Statement::Op(left, _, right, _) => {
            law_passes_agree(*left, table, state, ids);
            law_passes_agree(
                *right,
                check(*left, table).table,
                generate(*left, state, ids).state,
                ids,
            );
        },
        Statement::Assign(_, value, _) => {
            law_passes_agree(*value, table, state, ids);
        },
        Statement::LetAssign(ident, value, _) => {
            law_passes_agree(*value, table, state, ids);
            let checked = check(*value, table);
            let initial = generate(*value, state, ids);
            lemma_declared_like_allocated(
                checked.table,
                initial.state,
                ident.0@,
                initial.outcome->Ok_0->Some_0,
                ids,
            );
        },
        Statement::Block(statements, _) => {
            lemma_blocks_agree(statements.0@, table, state, ids);
        },
        _ => {},
    }
}

proof fn lemma_blocks_agree<L>(
    statements: Seq<Box<Statement>>,
    table: Map<Seq<char>, Binding<L>>,
    state: Emission,
    ids: spec_fn(nat) -> LocalId,
)
    requires
        same_types(table, state.table),
        check_all(statements, table).verdict is Ok,
        generate_all(statements, state, ids).outcome is Ok,
    ensures
        check_all(statements, table).verdict->Ok_0 == generate_all(
            statements,
            state,
            ids,
        ).outcome->Ok_0,
        same_types(
            check_all(statements, table).table,
            generate_all(statements, state, ids).state.table,
        ),
    decreases statements, 0int,
{
    if statements.len() > 0 {
        let checked = check_all(statements.drop_last(), table);
        let before = generate_all(statements.drop_last(), state, ids);
        lemma_blocks_agree(statements.drop_last(), table, state, ids);
        law_passes_agree(
            *statements.last(),
            checked.table,
            discarded(before.state, before.outcome->Ok_0),
            ids,
        );
    }
}

} // verus!
