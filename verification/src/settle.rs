//! Completion of one selection set: how the answers of its units, taken in
//! declaration order, become one object or one null, and which errors are
//! recorded.

use vstd::prelude::*;
use crate::scalar::Leaf;
use crate::scalar::ScalarValue;
use crate::value::distinct_keys;
use crate::value::keyed_trees;
use crate::value::put;
use crate::value::put_all;
use crate::value::reversed;
use crate::value::Object;
use crate::value::Tree;
use crate::value::Value;

verus! {

/// A place in the query text.
#[derive(Clone, Copy, Debug, PartialEq, Eq, Structural)]
pub struct SourcePosition {
    pub index: usize,
    pub line: usize,
    pub col: usize,
}

/// The failure of a resolver.
#[derive(Debug, PartialEq)]
pub struct FieldError {
    pub message: String,
}

/// A recorded failure: where in the query text, under which response path,
/// and with what message.
#[derive(Debug, PartialEq)]
pub struct ExecutionError {
    pub location: SourcePosition,
    pub path: Vec<String>,
    pub message: String,
}

/// The mathematical content of a recorded failure.
pub struct ErrorModel {
    pub location: SourcePosition,
    pub path: Seq<Seq<char>>,
    pub message: Seq<char>,
}

/// The texts of a sequence of strings, in order.
pub open spec fn texts(strings: Seq<String>) -> Seq<Seq<char>> {
    Seq::new(strings.len(), |i: int| strings[i]@)
}

impl View for ExecutionError {
    type V = ErrorModel;

    open spec fn view(&self) -> ErrorModel {
        ErrorModel { location: self.location, path: texts(self.path@), message: self.message@ }
    }
}

/// The contents of a sequence of recorded failures, in order.
pub open spec fn error_models(errors: Seq<ExecutionError>) -> Seq<ErrorModel> {
    Seq::new(errors.len(), |i: int| errors[i]@)
}

/// One unit of a selection set together with its answer.
#[derive(Debug, PartialEq)]
pub enum Resolved<S: ScalarValue> {
    /// A field: its response key, its place in the query, whether its
    /// declared type is non-null, and what its resolver returned.
    Field { key: String, position: SourcePosition, non_null: bool, result: Result<Value<S>, FieldError> },
    /// The type-name meta-field: its response key and the concrete type name.
    TypeName { key: String, name: String },
    /// A fragment resolved against the same instance without a type
    /// condition: the value that its selection set gave.
    Nested { value: Value<S> },
    /// An inline fragment with a type condition: its place in the query and
    /// what resolving the instance as that type returned.
    Downcast { position: SourcePosition, result: Result<Value<S>, FieldError> },
}

/// The mathematical content of a unit with its answer.
pub enum ResolvedModel {
    Field { key: Seq<char>, position: SourcePosition, non_null: bool, result: Result<Tree, Seq<char>> },
    TypeName { key: Seq<char>, name: Seq<char> },
    Nested { value: Tree },
    Downcast { position: SourcePosition, result: Result<Tree, Seq<char>> },
}

/// The content of a resolver's result.
pub open spec fn result_model<S: ScalarValue>(r: Result<Value<S>, FieldError>) -> Result<
    Tree,
    Seq<char>,
> {
    match r {
        Ok(v) => Ok(v@),
        Err(e) => Err(e.message@),
    }
}

impl<S: ScalarValue> View for Resolved<S> {
    type V = ResolvedModel;

    open spec fn view(&self) -> ResolvedModel {
        match *self {
            Resolved::Field { key, position, non_null, result } => ResolvedModel::Field {
                key: key@,
                position,
                non_null,
                result: result_model(result),
            },
            Resolved::TypeName { key, name } => ResolvedModel::TypeName { key: key@, name: name@ },
            Resolved::Nested { value } => ResolvedModel::Nested { value: value@ },
            Resolved::Downcast { position, result } => ResolvedModel::Downcast {
                position,
                result: result_model(result),
            },
        }
    }
}

/// The contents of a sequence of answered units, in order.
pub open spec fn resolved_models<S: ScalarValue>(units: Seq<Resolved<S>>) -> Seq<ResolvedModel> {
    Seq::new(units.len(), |i: int| units[i]@)
}

/// Whether a resolver's result nullifies the object around its field: a
/// failure or a null under a non-null type does, nothing else.
pub open spec fn result_collapses(non_null: bool, result: Result<Tree, Seq<char>>) -> bool {
    non_null && (result is Err || result == Ok::<Tree, Seq<char>>(Tree::Null))
}

/// The tree that a field contributes where it does not collapse its object:
/// what the resolver returned, or null where it failed.
pub open spec fn result_tree(result: Result<Tree, Seq<char>>) -> Tree {
    match result {
        Ok(t) => t,
        Err(_) => Tree::Null,
    }
}

/// Whether an answered unit nullifies the enclosing object.
pub open spec fn collapses(unit: ResolvedModel) -> bool {
    match unit {
        ResolvedModel::Field { non_null, result, .. } => result_collapses(non_null, result),
        ResolvedModel::Nested { value } => value == Tree::Null,
        _ => false,
    }
}

/// `fields` after the contribution of one answered unit has been merged in.
pub open spec fn merged(fields: Seq<(Seq<char>, Tree)>, unit: ResolvedModel) -> Seq<
    (Seq<char>, Tree),
> {
    match unit {
        ResolvedModel::Field { key, result, .. } => put(fields, key, result_tree(result)),
        ResolvedModel::TypeName { key, name } => put(fields, key, Tree::Scalar(Leaf::Text(name))),
        ResolvedModel::Nested { value } => match value {
            Tree::Object(more) => put_all(fields, more),
            _ => fields,
        },
        ResolvedModel::Downcast { result, .. } => match result {
            Ok(Tree::Object(more)) => put_all(fields, more),
            _ => fields,
        },
    }
}

/// The fields after the contributions of all units have been merged, each at
/// the turn that its place in the sequence gives it.
pub open spec fn merge_all(units: Seq<ResolvedModel>) -> Seq<(Seq<char>, Tree)>
    decreases units.len(),
{
    if units.len() == 0 {
        Seq::empty()
    } else {
        merged(merge_all(units.drop_last()), units.last())
    }
}

/// Whether some unit nullifies the enclosing object.
pub open spec fn any_collapses(units: Seq<ResolvedModel>) -> bool {
    exists|i: int| 0 <= i < units.len() && collapses(#[trigger] units[i])
}

/// The value of a selection set: null where a unit collapses it, else the
/// object of all merged contributions.
pub open spec fn settle_value(units: Seq<ResolvedModel>) -> Tree {
    if any_collapses(units) {
        Tree::Null
    } else {
        Tree::Object(merge_all(units))
    }
}

/// The failure that a unit records, if it records one: a failed field at the
/// field's place under the field's path, a failed downcast at the fragment's
/// place under the enclosing path.
pub open spec fn failure(unit: ResolvedModel, path: Seq<Seq<char>>) -> Option<ErrorModel> {
    match unit {
        ResolvedModel::Field { key, position, result: Err(message), .. } => Some(
            ErrorModel { location: position, path: path.push(key), message },
        ),
        ResolvedModel::Downcast { position, result: Err(message) } => Some(
            ErrorModel { location: position, path, message },
        ),
        _ => None,
    }
}

/// The failures that the units record, in unit order.
pub open spec fn settle_errors(units: Seq<ResolvedModel>, path: Seq<Seq<char>>) -> Seq<ErrorModel>
    decreases units.len(),
{
    if units.len() == 0 {
        Seq::empty()
    } else {
        let before = settle_errors(units.drop_last(), path);
        match failure(units.last(), path) {
            Some(e) => before.push(e),
            None => before,
        }
    }
}

/// Whether one more unit makes the units collapse: it does where the units
/// before it do or the unit itself does.
pub proof fn lemma_any_collapses_step(units: Seq<ResolvedModel>, n: int)
    requires
        0 <= n < units.len(),
    ensures
        any_collapses(units.take(n + 1)) == (any_collapses(units.take(n)) || collapses(units[n])),
{
    let shorter = units.take(n);
    let longer = units.take(n + 1);
    if any_collapses(shorter) {
        let i = choose|i: int| 0 <= i < shorter.len() && collapses(#[trigger] shorter[i]);
        assert(longer[i] == shorter[i]);
    }
    if collapses(units[n]) {
        assert(longer[n] == units[n]);
    }
    if any_collapses(longer) {
        let i = choose|i: int| 0 <= i < longer.len() && collapses(#[trigger] longer[i]);
        if i < n {
            assert(shorter[i] == longer[i]);
        }
    }
}

/// Writes `value` under `response_name`: a key that is already there takes
/// the new value and keeps its place, a new key goes to the end.
pub fn merge_key_into<S: ScalarValue>(result: &mut Object<S>, response_name: &str, value: Value<S>)
    ensures
        final(result)@ == put(old(result)@, response_name@, value@),
        distinct_keys(final(result)@),
{
    let _ = result.add_field(response_name, value);
}

/// Merges every field of `more` into `result`, in the order of `more`.
pub fn merge_fields<S: ScalarValue>(result: &mut Object<S>, more: Object<S>)
    ensures
        final(result)@ == put_all(old(result)@, more@),
        distinct_keys(final(result)@),
{
    let ghost target = more@;
    let ghost start = result@;
    // Learns that the keys of the object are distinct.
    let _ = result.field_count();
    let fields = more.into_fields();
    let ghost orig = fields@;
    let mut rest = reversed(fields);
    let ghost mut done: int = 0;
    assert(target.take(0) =~= Seq::empty());
    while rest.len() > 0
        invariant
            keyed_trees(orig) == target,
            0 <= done <= orig.len(),
            rest@.len() + done == orig.len(),
            rest@ == orig.reverse().subrange(0, rest@.len() as int),
            result@ == put_all(start, target.take(done)),
            distinct_keys(result@),
        decreases rest.len(),
    {
        let pair = rest.pop().unwrap();
        assert(pair == orig[done]);
        assert(target[done] == (pair.0@, pair.1@));
        merge_key_into(result, pair.0.as_str(), pair.1);
        proof {
            assert(target.take(done + 1).drop_last() =~= target.take(done));
            done = done + 1;
        }
    }
    assert(target.take(done) =~= target);
}

/// A copy of a response path.
pub fn copy_path(path: &Vec<String>) -> (r: Vec<String>)
    ensures
        texts(r@) == texts(path@),
{
    let mut r: Vec<String> = Vec::new();
    let mut i: usize = 0;
    while i < path.len()
        invariant
            i <= path.len(),
            r@.len() == i,
            forall|k: int| 0 <= k < i ==> (#[trigger] r@[k])@ == path@[k]@,
        decreases path.len() - i,
    {
        r.push(path[i].clone());
        i += 1;
    }
    assert(texts(r@) =~= texts(path@));
    r
}

/// Completes one field from what its resolver returned. A failure is
/// recorded at the field's place, under the enclosing path extended by the
/// field's key. The field's value is what the resolver returned, or null
/// where it failed; under a non-null type a failure or a null gives no value,
/// which nullifies the enclosing object.
pub fn complete_field<S: ScalarValue>(
    result: Result<Value<S>, FieldError>,
    non_null: bool,
    position: SourcePosition,
    path: &Vec<String>,
    key: &str,
    errors: &mut Vec<ExecutionError>,
) -> (value: Option<Value<S>>)
    ensures
        value is None <==> result_collapses(non_null, result_model(result)),
        value is Some ==> value.unwrap()@ == result_tree(result_model(result)),
        error_models(final(errors)@) == match result {
            Ok(_) => error_models(old(errors)@),
            Err(e) => error_models(old(errors)@).push(
                ErrorModel { location: position, path: texts(path@).push(key@), message: e.message@ },
            ),
        },
{
    match result {
        Ok(v) => {
            if non_null && v.is_null() {
                None
            } else {
                Some(v)
            }
        },
        Err(e) => {
            let mut at = copy_path(path);
            at.push(key.to_owned());
            assert(texts(at@) =~= texts(path@).push(key@));
            let ghost before = error_models(errors@);
            errors.push(ExecutionError { location: position, path: at, message: e.message });
            assert(error_models(errors@) =~= before.push(
                ErrorModel { location: position, path: texts(path@).push(key@), message: e.message@ },
            ));
            if non_null {
                None
            } else {
                Some(Value::Null)
            }
        },
    }
}

/// Completes a selection set from its units and their answers, taken in
/// declaration order: records every failure, merges every contribution at
/// its turn, and gives null where a unit nullifies the object.
pub fn settle<S: ScalarValue>(
    units: Vec<Resolved<S>>,
    path: &Vec<String>,
    errors: &mut Vec<ExecutionError>,
) -> (value: Value<S>)
    ensures
        value@ == settle_value(resolved_models(units@)),
        value@ is Object ==> distinct_keys(value@->Object_0),
        error_models(final(errors)@) == error_models(old(errors)@) + settle_errors(
            resolved_models(units@),
            texts(path@),
        ),
{
    let ghost models = resolved_models(units@);
    let ghost orig = units@;
    let ghost start = error_models(errors@);
    let mut object: Object<S> = Object::with_capacity(units.len());
    let mut collapsed = false;
    let mut rest = reversed(units);
    let ghost mut done: int = 0;
    assert(models.take(0) =~= Seq::empty());
    assert(start + settle_errors(models.take(0), texts(path@)) =~= start);
    while rest.len() > 0
        invariant
            models == resolved_models(orig),
            0 <= done <= orig.len(),
            rest@.len() + done == orig.len(),
            rest@ == orig.reverse().subrange(0, rest@.len() as int),
            object@ == merge_all(models.take(done)),
            distinct_keys(object@),
            collapsed == any_collapses(models.take(done)),
            error_models(errors@) == start + settle_errors(models.take(done), texts(path@)),
        decreases rest.len(),
    {
        let unit = rest.pop().unwrap();
        assert(unit == orig[done]);
        assert(models[done] == unit@);
        let ghost so_far = error_models(errors@);
        proof {
            lemma_any_collapses_step(models, done);
            assert(models.take(done + 1).drop_last() =~= models.take(done));
            assert(models.take(done + 1).last() == models[done]);
        }
        match unit {
            Resolved::Field { key, position, non_null, result } => {
                match complete_field(result, non_null, position, path, key.as_str(), errors) {
                    Some(v) => {
                        merge_key_into(&mut object, key.as_str(), v);
                    },
                    None => {
                        collapsed = true;
                        merge_key_into(&mut object, key.as_str(), Value::Null);
                    },
                }
            },
            Resolved::TypeName { key, name } => {
                merge_key_into(&mut object, key.as_str(), Value::Scalar(S::from_string(name)));
            },
            Resolved::Nested { value } => {
                match value {
                    Value::Null => {
                        collapsed = true;
                    },
                    Value::Object(more) => {
                        merge_fields(&mut object, more);
                    },
                    _ => {},
                }
            },
            Resolved::Downcast { position, result } => {
                match result {
                    Ok(Value::Object(more)) => {
                        merge_fields(&mut object, more);
                    },
                    Ok(_) => {},
                    Err(e) => {
                        let at = copy_path(path);
                        errors.push(ExecutionError { location: position, path: at, message: e.message });
                        assert(error_models(errors@) =~= so_far.push(
                            ErrorModel { location: position, path: texts(path@), message: e.message@ },
                        ));
                    },
                }
            },
        }
        proof {
            assert(error_models(errors@) =~= start + settle_errors(
                models.take(done + 1),
                texts(path@),
            ));
            done = done + 1;
        }
    }
    assert(models.take(done) =~= models);
    if collapsed {
        Value::Null
    } else {
        Value::Object(object)
    }
}

} // verus!
