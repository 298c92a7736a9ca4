//! What holds of completion in general: failures stay within the nearest
//! nullable field, sibling fields do not disturb each other, and a key that
//! is merged twice is held once, with the later value.

use vstd::prelude::*;
use crate::settle::any_collapses;
use crate::settle::collapses;
use crate::settle::failure;
use crate::settle::merge_all;
use crate::settle::merged;
use crate::value::put_all;
use crate::settle::settle_errors;
use crate::settle::settle_value;
use crate::settle::ErrorModel;
use crate::settle::ResolvedModel;
use crate::value::distinct_keys;
use crate::value::lemma_position_is;
use crate::value::lemma_position_of;
use crate::value::lemma_put_distinct;
use crate::value::lookup;
use crate::value::position_of;
use crate::value::put;
use crate::value::Tree;

verus! {

/// Whether a unit is a field of a nullable type.
pub open spec fn nullable_field(unit: ResolvedModel) -> bool {
    match unit {
        ResolvedModel::Field { non_null, .. } => !non_null,
        _ => false,
    }
}

/// The response key of a field.
pub open spec fn key_of(unit: ResolvedModel) -> Seq<char> {
    match unit {
        ResolvedModel::Field { key, .. } => key,
        ResolvedModel::TypeName { key, .. } => key,
        _ => Seq::empty(),
    }
}

/// Whether a unit is a field whose resolver failed.
pub open spec fn failed_field(unit: ResolvedModel) -> bool {
    match unit {
        ResolvedModel::Field { result, .. } => result is Err,
        _ => false,
    }
}

/// What a field of a nullable type leaves under its key: what its resolver
/// returned, or null where it failed.
pub open spec fn kept(unit: ResolvedModel) -> Tree {
    match unit {
        ResolvedModel::Field { result: Ok(t), .. } => t,
        _ => Tree::Null,
    }
}

/// The keyed values that the first `n` units leave, one per unit.
pub open spec fn kept_fields(units: Seq<ResolvedModel>, n: int) -> Seq<(Seq<char>, Tree)> {
    Seq::new(n as nat, |i: int| (key_of(units[i]), kept(units[i])))
}

/// Writing under a key that no field has appends the field.
pub proof fn lemma_put_fresh(fields: Seq<(Seq<char>, Tree)>, key: Seq<char>, value: Tree)
    requires
        forall|i: int| 0 <= i < fields.len() ==> (#[trigger] fields[i]).0 != key,
    ensures
        put(fields, key, value) == fields.push((key, value)),
{
    lemma_position_is(fields, key, fields.len() as int);
}

proof fn lemma_siblings_prefix(units: Seq<ResolvedModel>, path: Seq<Seq<char>>, failed: int, n: int)
    requires
        0 <= failed < units.len(),
        0 <= n <= units.len(),
        forall|i: int| 0 <= i < units.len() ==> nullable_field(#[trigger] units[i]),
        forall|i: int, j: int|
            0 <= i < units.len() && 0 <= j < units.len() && i != j ==> key_of(units[i]) != key_of(
                units[j],
            ),
        forall|i: int| 0 <= i < units.len() ==> (failed_field(#[trigger] units[i]) <==> i == failed),
    ensures
        !any_collapses(units.take(n)),
        merge_all(units.take(n)) == kept_fields(units, n),
        settle_errors(units.take(n), path) == if n > failed {
            seq![failure(units[failed], path).unwrap()]
        } else {
            Seq::<ErrorModel>::empty()
        },
    decreases n,
{
    let prefix = units.take(n);
    assert forall|i: int| 0 <= i < prefix.len() implies !collapses(#[trigger] prefix[i]) by {
        assert(nullable_field(units[i]));
    }
    if n == 0 {
        assert(merge_all(prefix) =~= kept_fields(units, n));
    } else {
        lemma_siblings_prefix(units, path, failed, n - 1);
        assert(prefix.drop_last() =~= units.take(n - 1));
        assert(prefix.last() == units[n - 1]);
        let before = kept_fields(units, n - 1);
        let unit = units[n - 1];
        assert(nullable_field(unit));
        assert(failed_field(unit) <==> n - 1 == failed);
        assert forall|i: int| 0 <= i < before.len() implies (#[trigger] before[i]).0 != key_of(
            unit,
        ) by {
            assert(key_of(units[i]) != key_of(units[n - 1]));
        }
        lemma_put_fresh(before, key_of(unit), kept(unit));
        assert(merged(before, unit) == before.push((key_of(unit), kept(unit))));
        assert(before.push((key_of(unit), kept(unit))) =~= kept_fields(units, n));
        if n - 1 == failed {
            assert(failure(unit, path) is Some);
            assert(Seq::<ErrorModel>::empty().push(failure(unit, path).unwrap()) =~= seq![
                failure(units[failed], path).unwrap(),
            ]);
        } else {
            assert(failure(unit, path) is None);
        }
    }
}

/// Of sibling fields of nullable types under distinct response keys, of
/// which exactly one resolver fails: the value is an object that holds every
/// key in declaration order, null under the failed field and under every
/// other field what its resolver returned, and exactly one failure is
/// recorded, at the failed field's place.
pub proof fn lemma_one_failure_among_siblings(
    units: Seq<ResolvedModel>,
    path: Seq<Seq<char>>,
    failed: int,
)
    requires
        0 <= failed < units.len(),
        forall|i: int| 0 <= i < units.len() ==> nullable_field(#[trigger] units[i]),
        forall|i: int, j: int|
            0 <= i < units.len() && 0 <= j < units.len() && i != j ==> key_of(units[i]) != key_of(
                units[j],
            ),
        forall|i: int| 0 <= i < units.len() ==> (failed_field(#[trigger] units[i]) <==> i == failed),
    ensures
        settle_value(units) == Tree::Object(kept_fields(units, units.len() as int)),
        kept_fields(units, units.len() as int)[failed].1 == Tree::Null,
        settle_errors(units, path) == seq![failure(units[failed], path).unwrap()],
        failure(units[failed], path).unwrap().location == units[failed]->Field_position,
{
    lemma_siblings_prefix(units, path, failed, units.len() as int);
    assert(units.take(units.len() as int) =~= units);
    assert(failed_field(units[failed]));
}

/// A field of a non-null type whose resolver fails or returns null
/// nullifies the object around it, whatever its siblings returned.
pub proof fn lemma_non_null_passes_null_on(units: Seq<ResolvedModel>, at: int)
    requires
        0 <= at < units.len(),
        units[at] matches ResolvedModel::Field { non_null, result, .. } && non_null && (result
            is Err || result == Ok::<Tree, Seq<char>>(Tree::Null)),
    ensures
        settle_value(units) == Tree::Null,
{
    assert(collapses(units[at]));
}

/// Whether some unit of a selection set is a field of a non-null type whose
/// resolver returned `value`.
pub open spec fn held_under_non_null(units: Seq<ResolvedModel>, value: Tree) -> bool {
    exists|i: int|
        0 <= i < units.len() && (match #[trigger] units[i] {
            ResolvedModel::Field { non_null, result, .. } => non_null && result == Ok::<
                Tree,
                Seq<char>,
            >(value),
            _ => false,
        })
}

proof fn lemma_null_rises_to(levels: Seq<Seq<ResolvedModel>>, top: int)
    requires
        0 <= top < levels.len(),
        any_collapses(levels[0]),
        forall|j: int|
            1 <= j < levels.len() ==> held_under_non_null(
                #[trigger] levels[j],
                settle_value(levels[j - 1]),
            ),
    ensures
        settle_value(levels[top]) == Tree::Null,
    decreases top,
{
    if top > 0 {
        lemma_null_rises_to(levels, top - 1);
        let units = levels[top];
        assert(held_under_non_null(units, settle_value(levels[top - 1])));
        let i = choose|i: int|
            0 <= i < units.len() && (match #[trigger] units[i] {
                ResolvedModel::Field { non_null, result, .. } => non_null && result == Ok::<
                    Tree,
                    Seq<char>,
                >(settle_value(levels[top - 1])),
                _ => false,
            });
        assert(collapses(units[i]));
    }
}

/// A null rises through every field of a non-null type. Of selection sets
/// along a path, innermost first, where a unit nullifies the innermost and
/// each further one holds the value of the one before it under a field of a
/// non-null type: every one of them is null.
pub proof fn lemma_null_rises_through_non_null(levels: Seq<Seq<ResolvedModel>>)
    requires
        levels.len() > 0,
        any_collapses(levels[0]),
        forall|j: int|
            1 <= j < levels.len() ==> held_under_non_null(
                #[trigger] levels[j],
                settle_value(levels[j - 1]),
            ),
    ensures
        forall|j: int| 0 <= j < levels.len() ==> settle_value(#[trigger] levels[j]) == Tree::Null,
{
    assert forall|j: int| 0 <= j < levels.len() implies settle_value(#[trigger] levels[j])
        == Tree::Null by {
        lemma_null_rises_to(levels, j);
    }
}

/// A field of a nullable type stops a null: where the value of its own
/// selection set was nullified by a unit behind it, the field holds null
/// under its key, the object around it stands, and its siblings contribute
/// as they would have.
pub proof fn lemma_nullable_stops_null(
    inner: Seq<ResolvedModel>,
    outer: Seq<ResolvedModel>,
    at: int,
)
    requires
        any_collapses(inner),
        0 <= at < outer.len(),
        outer[at] matches ResolvedModel::Field { non_null, result, .. } && !non_null && result
            == Ok::<Tree, Seq<char>>(settle_value(inner)),
        forall|i: int| 0 <= i < outer.len() && i != at ==> !collapses(#[trigger] outer[i]),
    ensures
        settle_value(inner) == Tree::Null,
        kept(outer[at]) == Tree::Null,
        settle_value(outer) == Tree::Object(merge_all(outer)),
        merged(merge_all(outer.take(at)), outer[at]) == put(
            merge_all(outer.take(at)),
            key_of(outer[at]),
            Tree::Null,
        ),
{
    assert(!collapses(outer[at]));
}

proof fn lemma_put_all_prefix(
    fields: Seq<(Seq<char>, Tree)>,
    more: Seq<(Seq<char>, Tree)>,
    n: int,
)
    requires
        distinct_keys(fields),
        fields.len() == more.len(),
        forall|i: int| 0 <= i < fields.len() ==> (#[trigger] fields[i]).0 == more[i].0,
        0 <= n <= more.len(),
    ensures
        put_all(fields, more.take(n)) == more.take(n) + fields.skip(n),
    decreases n,
{
    if n == 0 {
        assert(more.take(0) + fields.skip(0) =~= fields);
    } else {
        lemma_put_all_prefix(fields, more, n - 1);
        assert(more.take(n).drop_last() =~= more.take(n - 1));
        let before = more.take(n - 1) + fields.skip(n - 1);
        let key = more[n - 1].0;
        assert(before[n - 1] == fields[n - 1]);
        assert forall|i: int| 0 <= i < n - 1 implies (#[trigger] before[i]).0 != key by {
            assert(before[i] == more[i]);
            assert(fields[i].0 == more[i].0);
            assert(fields[i].0 != fields[n - 1].0);
        }
        lemma_position_is(before, key, n - 1);
        assert(put(before, key, more[n - 1].1) =~= more.take(n) + fields.skip(n));
    }
}

/// Merging an object over one with the same keys in the same order leaves
/// the later object: every key is held once, with the later value.
pub proof fn lemma_put_all_same_keys(fields: Seq<(Seq<char>, Tree)>, more: Seq<(Seq<char>, Tree)>)
    requires
        distinct_keys(fields),
        fields.len() == more.len(),
        forall|i: int| 0 <= i < fields.len() ==> (#[trigger] fields[i]).0 == more[i].0,
    ensures
        put_all(fields, more) == more,
{
    lemma_put_all_prefix(fields, more, more.len() as int);
    assert(more.take(more.len() as int) =~= more);
    assert(more + fields.skip(more.len() as int) =~= more);
}

/// Merging an object into an empty one leaves that object.
pub proof fn lemma_put_all_into_empty(more: Seq<(Seq<char>, Tree)>)
    requires
        distinct_keys(more),
    ensures
        put_all(Seq::empty(), more) == more,
    decreases more.len(),
{
    if more.len() > 0 {
        let shorter = more.drop_last();
        assert forall|i: int, j: int|
            0 <= i < shorter.len() && 0 <= j < shorter.len() && i != j implies shorter[i].0
            != shorter[j].0 by {
            assert(more[i].0 != more[j].0);
        }
        lemma_put_all_into_empty(shorter);
        assert forall|i: int| 0 <= i < shorter.len() implies (#[trigger] shorter[i]).0
            != more.last().0 by {
            assert(more[i].0 != more[more.len() - 1].0);
        }
        lemma_put_fresh(shorter, more.last().0, more.last().1);
        assert(shorter.push(more.last()) =~= more);
    }
}

/// Writing under one key leaves what is held under every other key.
pub proof fn lemma_put_other(
    fields: Seq<(Seq<char>, Tree)>,
    key: Seq<char>,
    value: Tree,
    other: Seq<char>,
)
    requires
        key != other,
    ensures
        lookup(put(fields, key, value), other) == lookup(fields, other),
{
    let after = put(fields, key, value);
    let p = position_of(fields, other);
    let q = position_of(fields, key);
    lemma_position_of(fields, other);
    lemma_position_of(fields, key);
    if p < fields.len() {
        assert forall|i: int| 0 <= i < p implies (#[trigger] after[i]).0 != other by {
            if i != q {
                assert(after[i] == fields[i]);
            }
        }
        assert(after[p] == fields[p]);
        lemma_position_is(after, other, p);
    } else {
        assert forall|i: int| 0 <= i < after.len() implies (#[trigger] after[i]).0 != other by {
            if i < fields.len() && i != q {
                assert(after[i] == fields[i]);
            }
        }
        lemma_position_is(after, other, after.len() as int);
    }
}

/// Merging never holds a key twice, and the later write wins: after the
/// fields of an object have been merged in, every key of that object holds
/// the value that the object has for it.
pub proof fn lemma_put_all_last_wins(fields: Seq<(Seq<char>, Tree)>, more: Seq<(Seq<char>, Tree)>)
    requires
        distinct_keys(fields),
        distinct_keys(more),
    ensures
        distinct_keys(put_all(fields, more)),
        forall|i: int|
            0 <= i < more.len() ==> lookup(put_all(fields, more), (#[trigger] more[i]).0) == Some(
                more[i].1,
            ),
    decreases more.len(),
{
    if more.len() > 0 {
        let shorter = more.drop_last();
        let last = more.last();
        assert forall|i: int, j: int|
            0 <= i < shorter.len() && 0 <= j < shorter.len() && i != j implies shorter[i].0
            != shorter[j].0 by {
            assert(more[i].0 != more[j].0);
        }
        lemma_put_all_last_wins(fields, shorter);
        let before = put_all(fields, shorter);
        lemma_put_distinct(before, last.0, last.1);
        assert forall|i: int| 0 <= i < more.len() implies lookup(
            put_all(fields, more),
            (#[trigger] more[i]).0,
        ) == Some(more[i].1) by {
            if i < shorter.len() {
                assert(shorter[i] == more[i]);
                assert(more[i].0 != more[more.len() - 1].0);
                lemma_put_other(before, last.0, last.1, more[i].0);
            }
        }
    }
}

/// A fragment that is spread twice into one selection set, and gives the
/// same keys both times, leaves one entry per key, with the value that the
/// later spread gave.
pub proof fn lemma_spread_twice(
    earlier: Seq<(Seq<char>, Tree)>,
    later: Seq<(Seq<char>, Tree)>,
)
    requires
        distinct_keys(earlier),
        earlier.len() == later.len(),
        forall|i: int| 0 <= i < earlier.len() ==> (#[trigger] earlier[i]).0 == later[i].0,
    ensures
        settle_value(
            seq![
                ResolvedModel::Nested { value: Tree::Object(earlier) },
                ResolvedModel::Nested { value: Tree::Object(later) },
            ],
        ) == Tree::Object(later),
{
    let first = ResolvedModel::Nested { value: Tree::Object(earlier) };
    let second = ResolvedModel::Nested { value: Tree::Object(later) };
    let units = seq![first, second];
    assert(units.drop_last() =~= seq![first]);
    assert(seq![first].drop_last() =~= Seq::<ResolvedModel>::empty());
    assert(merge_all(seq![first]) == put_all(Seq::empty(), earlier)) by {
        assert(seq![first].last() == first);
        assert(merge_all(seq![first].drop_last()) =~= Seq::empty());
    }
    lemma_put_all_into_empty(earlier);
    lemma_put_all_same_keys(earlier, later);
    assert(units.last() == second);
    assert(merge_all(units) == later);
    assert forall|i: int| 0 <= i < units.len() implies !collapses(#[trigger] units[i]) by {}
}

} // verus!
