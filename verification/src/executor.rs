//! Execution of one selection set against an instance: which selections take
//! part, what is asked of the instance for each, and how the answers are
//! completed into one value.

use vstd::prelude::*;
use crate::ast::excluded;
use crate::ast::is_excluded;
use crate::ast::Fragment;
use crate::ast::Selection;
use crate::input::named_inputs;
use crate::input::InputTree;
use crate::input::InputValue;
use crate::scalar::same_text;
use crate::scalar::ScalarValue;
use crate::schema::named_fields;
use crate::schema::named_types;
use crate::schema::declared_defaults;
use crate::schema::resolved_arguments;
use crate::schema::with_defaults;
use crate::ast::Field;
use crate::ast::InlineFragment;
use crate::schema::Arguments;
use crate::schema::MetaType;
use crate::schema::Registry;
use crate::settle::copy_path;
use crate::settle::error_models;
use crate::settle::resolved_models;
use crate::settle::result_model;
use crate::settle::settle;
use crate::settle::settle_errors;
use crate::settle::settle_value;
use crate::settle::texts;
use crate::settle::ErrorModel;
use crate::settle::ExecutionError;
use crate::settle::FieldError;
use crate::settle::Resolved;
use crate::settle::ResolvedModel;
use crate::value::has_key;
use crate::value::lemma_position_is;
use crate::value::lookup;
use crate::value::Tree;
use crate::value::Value;

verus! {

/// The scope in which a selection set is resolved: the variables of the
/// request, the fragments of the document, the schema, the selection set of
/// the field that is being resolved, and the response path of that field.
pub struct Executor<'a, S: ScalarValue> {
    pub variables: &'a Vec<(String, InputValue<S>)>,
    pub fragments: &'a Vec<Fragment<S>>,
    pub schema: &'a Registry<S>,
    pub selection_set: Option<&'a Vec<Selection<S>>>,
    pub path: Vec<String>,
}

/// What a resolver hands back: its result, and the failures that were
/// recorded while it ran.
pub struct Answer<S: ScalarValue> {
    pub result: Result<Value<S>, FieldError>,
    pub recorded: Vec<ExecutionError>,
}

/// What a schema type does at execution. Every method is the type's own:
/// the engine fixes what it hands to each and completes whatever comes back.
/// The answers are plain values: a host that has to wait for one hands it
/// over when it is there, and the engine completes the answers in
/// declaration order whatever the order in which they arrived.
pub trait GraphQLTypeAsync<S: ScalarValue> {
    /// The value that is threaded through resolution.
    type Context;

    /// The name of the concrete type of this instance.
    fn concrete_type_name(&self, context: &Self::Context) -> String;

    /// Resolves the field called `field_name` with the given arguments. The
    /// executor is the scope of the field: it holds the field's own
    /// selection set and its response path. The answer holds what the
    /// resolver returned and the failures that were recorded below the field.
    fn resolve_field_async(
        &self,
        field_name: &str,
        arguments: &Arguments<S>,
        executor: &Executor<S>,
        context: &Self::Context,
    ) -> Answer<S>;

    /// Resolves this instance as the concrete type called `target`,
    /// against the selection set that the executor holds.
    fn resolve_into_type_async(
        &self,
        target: &str,
        executor: &Executor<S>,
        context: &Self::Context,
    ) -> Answer<S>;
}

/// The fragments of a document, each under its name.
pub open spec fn named_fragments<S: ScalarValue>(fragments: Seq<Fragment<S>>) -> Seq<
    (Seq<char>, Fragment<S>),
> {
    Seq::new(fragments.len(), |i: int| (fragments[i].name@, fragments[i]))
}

/// Whether a selection set can be resolved against a type within `depth`
/// levels of fragment spreads: every field but the type-name meta-field has
/// a descriptor on the type, every spread names a fragment of the document,
/// and following the spreads ends.
pub open spec fn resolvable<S: ScalarValue>(
    selections: Vec<Selection<S>>,
    fragments: Seq<Fragment<S>>,
    meta: MetaType<S>,
    depth: nat,
) -> bool
    decreases depth, selections,
{
    forall|i: int|
        0 <= i < selections.len() ==> match #[trigger] selections[i] {
            Selection::Field(f) => f.name@ == "__typename"@ || has_key(
                named_fields(meta.fields@),
                f.name@,
            ),
            Selection::FragmentSpread(spread) => depth > 0 && match lookup(
                named_fragments(fragments),
                spread.name@,
            ) {
                Some(fragment) => resolvable(
                    fragment.selection_set,
                    fragments,
                    meta,
                    (depth - 1) as nat,
                ),
                None => false,
            },
            Selection::InlineFragment(f) => f.type_condition is Some || resolvable(
                f.selection_set,
                fragments,
                meta,
                depth,
            ),
        }
}

/// Whether the directives of a selection exclude it under the variables.
pub open spec fn selection_excluded<S: ScalarValue>(
    selection: Selection<S>,
    vars: Seq<(Seq<char>, InputTree)>,
) -> bool {
    match selection {
        Selection::Field(f) => excluded(f.directives@, vars),
        Selection::FragmentSpread(spread) => excluded(spread.directives@, vars),
        Selection::InlineFragment(f) => excluded(f.directives@, vars),
    }
}

/// The positions of the selections that take part, in declaration order.
pub open spec fn chosen_indices<S: ScalarValue>(
    selections: Seq<Selection<S>>,
    vars: Seq<(Seq<char>, InputTree)>,
) -> Seq<int>
    decreases selections.len(),
{
    if selections.len() == 0 {
        Seq::empty()
    } else {
        let before = chosen_indices(selections.drop_last(), vars);
        if selection_excluded(selections.last(), vars) {
            before
        } else {
            before.push(selections.len() - 1)
        }
    }
}

/// Whether the type's descriptor declares the field called `name` non-null.
pub open spec fn declared_non_null<S: ScalarValue>(meta: MetaType<S>, name: Seq<char>) -> bool {
    match lookup(named_fields(meta.fields@), name) {
        Some(field) => field.field_type is NonNullNamed || field.field_type is NonNullList,
        None => false,
    }
}

/// Whether `sub` is the scope of the field `f` under `executor`: the same
/// request, document and schema, the field's own selection set, and the path
/// extended by the field's response key.
pub open spec fn field_scope<'a, S: ScalarValue>(
    sub: Executor<'a, S>,
    executor: Executor<'a, S>,
    f: Field<S>,
) -> bool {
    sub.variables == executor.variables && sub.fragments == executor.fragments && sub.schema
        == executor.schema && texts(sub.path@) == texts(executor.path@).push(f.response_key())
        && match sub.selection_set {
        Some(nested) => f.selection_set == Some(*nested),
        None => f.selection_set is None,
    }
}

/// Whether `sub` is the scope of the inline fragment `f` under `executor`:
/// the same request, document, schema and path, and the fragment's
/// selection set.
pub open spec fn fragment_scope<'a, S: ScalarValue>(
    sub: Executor<'a, S>,
    executor: Executor<'a, S>,
    f: InlineFragment<S>,
) -> bool {
    sub.variables == executor.variables && sub.fragments == executor.fragments && sub.schema
        == executor.schema && texts(sub.path@) == texts(executor.path@) && match sub.selection_set {
        Some(nested) => f.selection_set == *nested,
        None => false,
    }
}

/// Whether `arguments` are what the field `f` hands to its resolver: what
/// the query wrote, with the variables of the request resolved, and the
/// defaults that the type's descriptor of the field declares.
pub open spec fn handed_arguments<S: ScalarValue>(
    arguments: Arguments<S>,
    f: Field<S>,
    vars: Seq<(Seq<char>, InputTree)>,
    meta: MetaType<S>,
) -> bool {
    match lookup(named_fields(meta.fields@), f.name@) {
        Some(field) => named_inputs(arguments.args@) == with_defaults(
            resolved_arguments(named_inputs(f.arguments@), vars),
            declared_defaults(field.arguments@),
        ),
        None => false,
    }
}

/// Whether `answer` is an answer of the instance's resolver for the field
/// `f`, called with the field's name, its arguments and its scope.
pub open spec fn field_answer<'a, S: ScalarValue, T: GraphQLTypeAsync<S>>(
    instance: T,
    context: T::Context,
    executor: Executor<'a, S>,
    f: Field<S>,
    meta: MetaType<S>,
    answer: Answer<S>,
) -> bool {
    exists|name: &str, arguments: Arguments<S>, sub: Executor<'a, S>|
        #![trigger call_ensures(T::resolve_field_async, (&instance, name, &arguments, &sub, &context), answer)]
        name@ == f.name@ && handed_arguments(
            arguments,
            f,
            named_inputs(executor.variables@),
            meta,
        ) && field_scope(sub, executor, f) && call_ensures(
            T::resolve_field_async,
            (&instance, name, &arguments, &sub, &context),
            answer,
        )
}

/// Whether `answer` is an answer of the instance for being resolved as the
/// type that the inline fragment `f` asks for, in the fragment's scope.
pub open spec fn downcast_answer<'a, S: ScalarValue, T: GraphQLTypeAsync<S>>(
    instance: T,
    context: T::Context,
    executor: Executor<'a, S>,
    f: InlineFragment<S>,
    answer: Answer<S>,
) -> bool {
    exists|target: &str, sub: Executor<'a, S>|
        #![trigger call_ensures(T::resolve_into_type_async, (&instance, target, &sub, &context), answer)]
        f.type_condition is Some && f.type_condition.unwrap()@ == target@ && fragment_scope(
            sub,
            executor,
            f,
        ) && call_ensures(
            T::resolve_into_type_async,
            (&instance, target, &sub, &context),
            answer,
        )
}

/// Whether `name` is a concrete type name that the instance gives.
pub open spec fn type_name_answer<S: ScalarValue, T: GraphQLTypeAsync<S>>(
    instance: T,
    context: T::Context,
    name: Seq<char>,
) -> bool {
    exists|given: String|
        #![trigger call_ensures(T::concrete_type_name, (&instance, &context), given)]
        given@ == name && call_ensures(T::concrete_type_name, (&instance, &context), given)
}

/// The failures of a sequence of traces, one trace after another.
pub open spec fn flatten(traces: Seq<Seq<ErrorModel>>) -> Seq<ErrorModel>
    decreases traces.len(),
{
    if traces.len() == 0 {
        Seq::empty()
    } else {
        flatten(traces.drop_last()) + traces.last()
    }
}

/// Whether an answered unit is the unit of a selection: of the same kind,
/// under the selection's response key and at its place, non-null as the
/// type's descriptor of the field declares it, and holding what the
/// instance answered when it was asked as the selection demands. The unit of
/// a fragment that is resolved against the same instance holds a value that
/// the fragment's selection set resolves to. The trace holds what was
/// recorded below the unit: what the instance's answer recorded, or what
/// resolving the fragment recorded.
pub open spec fn unit_fits<'a, S: ScalarValue, T: GraphQLTypeAsync<S>>(
    instance: T,
    context: T::Context,
    executor: Executor<'a, S>,
    selection: Selection<S>,
    meta: MetaType<S>,
    depth: nat,
    unit: ResolvedModel,
    trace: Seq<ErrorModel>,
) -> bool
    decreases depth, selection, 0nat,
{
    match selection {
        Selection::Field(f) => if f.name@ == "__typename"@ {
            match unit {
                ResolvedModel::TypeName { key, name } => key == f.response_key()
                    && type_name_answer::<S, T>(instance, context, name) && trace
                    == Seq::<ErrorModel>::empty(),
                _ => false,
            }
        } else {
            match unit {
                ResolvedModel::Field { key, position, non_null, result } => key
                    == f.response_key() && position == f.position && non_null
                    == declared_non_null(meta, f.name@) && exists|answer: Answer<S>|
                    #![trigger result_model(answer.result)]
                    field_answer(instance, context, executor, f, meta, answer) && result
                        == result_model(answer.result) && trace == error_models(
                        answer.recorded@,
                    ),
                _ => false,
            }
        },
        Selection::FragmentSpread(spread) => match unit {
            ResolvedModel::Nested { value } => depth > 0 && match lookup(
                named_fragments(executor.fragments@),
                spread.name@,
            ) {
                Some(fragment) => resolves_to(
                    instance,
                    context,
                    executor,
                    fragment.selection_set,
                    meta,
                    (depth - 1) as nat,
                    value,
                    trace,
                ),
                None => false,
            },
            _ => false,
        },
        Selection::InlineFragment(f) => if f.type_condition is Some {
            match unit {
                ResolvedModel::Downcast { position, result } => position == f.position
                    && exists|answer: Answer<S>|
                    #![trigger result_model(answer.result)]
                    downcast_answer(instance, context, executor, f, answer) && result
                        == result_model(answer.result) && trace == error_models(
                        answer.recorded@,
                    ),
                _ => false,
            }
        } else {
            match unit {
                ResolvedModel::Nested { value } => exists|sub: Executor<'a, S>|
                    #![trigger fragment_scope(sub, executor, f)]
                    fragment_scope(sub, executor, f) && resolves_to(
                        instance,
                        context,
                        sub,
                        f.selection_set,
                        meta,
                        depth,
                        value,
                        trace,
                    ),
                _ => false,
            }
        },
    }
}

/// Whether the units, each with its trace, are the units of those of the
/// first `n` selections that take part, one for each and in declaration
/// order.
pub open spec fn answers<'a, S: ScalarValue, T: GraphQLTypeAsync<S>>(
    instance: T,
    context: T::Context,
    executor: Executor<'a, S>,
    selections: Vec<Selection<S>>,
    meta: MetaType<S>,
    depth: nat,
    n: int,
    units: Seq<ResolvedModel>,
    traces: Seq<Seq<ErrorModel>>,
) -> bool
    decreases depth, selections, 0nat,
{
    let picked = chosen_indices(selections@.take(n), named_inputs(executor.variables@));
    units.len() == picked.len() && traces.len() == picked.len() && forall|k: int|
        0 <= k < units.len() ==> 0 <= picked[k] < selections.len() && unit_fits(
            instance,
            context,
            executor,
            selections[picked[k]],
            meta,
            depth,
            #[trigger] units[k],
            traces[k],
        )
}

/// Whether a selection set resolves to `value`, recording `recorded`, within
/// `depth` levels of fragment spreads: `value` is the completion of units
/// that answer the selections taking part, and `recorded` holds what was
/// recorded below the units, unit by unit, and then the failures of the
/// units themselves.
pub open spec fn resolves_to<'a, S: ScalarValue, T: GraphQLTypeAsync<S>>(
    instance: T,
    context: T::Context,
    executor: Executor<'a, S>,
    selections: Vec<Selection<S>>,
    meta: MetaType<S>,
    depth: nat,
    value: Tree,
    recorded: Seq<ErrorModel>,
) -> bool
    decreases depth, selections, 1nat,
{
    exists|units: Seq<ResolvedModel>, traces: Seq<Seq<ErrorModel>>|
        #![trigger settle_value(units), flatten(traces)]
        answers(
            instance,
            context,
            executor,
            selections,
            meta,
            depth,
            selections.len() as int,
            units,
            traces,
        ) && value == settle_value(units) && recorded == flatten(traces) + settle_errors(
            units,
            texts(executor.path@),
        )
}

/// What resolving a selection set gives within `depth` levels of fragment
/// spreads: what was recorded before stays, and the selection set resolves
/// to the value, recording what comes after.
pub open spec fn resolution<'a, S: ScalarValue, T: GraphQLTypeAsync<S>>(
    instance: T,
    context: T::Context,
    executor: Executor<'a, S>,
    selections: Vec<Selection<S>>,
    meta: MetaType<S>,
    depth: nat,
    value: Tree,
    before: Seq<ErrorModel>,
    recorded: Seq<ErrorModel>,
) -> bool {
    before.len() <= recorded.len() && recorded.subrange(0, before.len() as int) == before
        && resolves_to(
        instance,
        context,
        executor,
        selections,
        meta,
        depth,
        value,
        recorded.subrange(before.len() as int, recorded.len() as int),
    )
}

/// What resolving a selection set gives, within some number of levels of
/// fragment spreads.
pub open spec fn resolved<'a, S: ScalarValue, T: GraphQLTypeAsync<S>>(
    instance: T,
    context: T::Context,
    executor: Executor<'a, S>,
    selections: Vec<Selection<S>>,
    meta: MetaType<S>,
    value: Tree,
    before: Seq<ErrorModel>,
    recorded: Seq<ErrorModel>,
) -> bool {
    exists|depth: nat| #[trigger]
        resolution(instance, context, executor, selections, meta, depth, value, before, recorded)
}

/// The first fragment called `name`, where there is one.
pub fn find_fragment<'a, S: ScalarValue>(fragments: &'a Vec<Fragment<S>>, name: &str) -> (r: Option<
    &'a Fragment<S>,
>)
    ensures
        r is Some <==> has_key(named_fragments(fragments@), name@),
        r is Some ==> lookup(named_fragments(fragments@), name@) == Some(*r.unwrap()),
{
    let ghost named = named_fragments(fragments@);
    let mut i: usize = 0;
    while i < fragments.len()
        invariant
            i <= fragments.len(),
            named == named_fragments(fragments@),
            forall|j: int| 0 <= j < i ==> (#[trigger] named[j]).0 != name@,
        decreases fragments.len() - i,
    {
        if same_text(fragments[i].name.as_str(), name) {
            proof {
                lemma_position_is(named, name@, i as int);
            }
            return Some(&fragments[i]);
        }
        i += 1;
    }
    proof {
        lemma_position_is(named, name@, i as int);
    }
    None
}

/// Whether a selection set can be resolved against a type within `depth`
/// levels of fragment spreads.
pub fn can_resolve<S: ScalarValue>(
    selection_set: &Vec<Selection<S>>,
    fragments: &Vec<Fragment<S>>,
    meta_type: &MetaType<S>,
    depth: usize,
) -> (r: bool)
    ensures
        r == resolvable(*selection_set, fragments@, *meta_type, depth as nat),
    decreases depth, *selection_set,
{
    let mut i: usize = 0;
    while i < selection_set.len()
        invariant
            i <= selection_set.len(),
            forall|j: int|
                0 <= j < i ==> match #[trigger] selection_set[j] {
                    Selection::Field(f) => f.name@ == "__typename"@ || has_key(
                        named_fields(meta_type.fields@),
                        f.name@,
                    ),
                    Selection::FragmentSpread(spread) => depth > 0 && match lookup(
                        named_fragments(fragments@),
                        spread.name@,
                    ) {
                        Some(fragment) => resolvable(
                            fragment.selection_set,
                            fragments@,
                            *meta_type,
                            (depth - 1) as nat,
                        ),
                        None => false,
                    },
                    Selection::InlineFragment(f) => f.type_condition is Some || resolvable(
                        f.selection_set,
                        fragments@,
                        *meta_type,
                        depth as nat,
                    ),
                },
        decreases selection_set.len() - i,
    {
        assert(decreases_to!(*selection_set => selection_set[i as int]));
        let fine = match &selection_set[i] {
            Selection::Field(f) => same_text(f.name.as_str(), "__typename")
                || meta_type.field_by_name(f.name.as_str()).is_some(),
            Selection::FragmentSpread(spread) => {
                if depth == 0 {
                    false
                } else {
                    match find_fragment(fragments, spread.name.as_str()) {
                        Some(fragment) => can_resolve(
                            &fragment.selection_set,
                            fragments,
                            meta_type,
                            depth - 1,
                        ),
                        None => false,
                    }
                }
            },
            Selection::InlineFragment(f) => f.type_condition.is_some() || can_resolve(
                &f.selection_set,
                fragments,
                meta_type,
                depth,
            ),
        };
        if !fine {
            return false;
        }
        i += 1;
    }
    true
}

impl<'a, S: ScalarValue> Executor<'a, S> {
    /// The fragment called `name`, where the document has one.
    pub fn fragment_by_name(&self, name: &str) -> (r: Option<&'a Fragment<S>>)
        ensures
            r is Some <==> has_key(named_fragments(self.fragments@), name@),
            r is Some ==> lookup(named_fragments(self.fragments@), name@) == Some(*r.unwrap()),
    {
        find_fragment(self.fragments, name)
    }

    /// The scope of a field of the current selection set: the same request,
    /// document and schema, the field's own selection set, and the path
    /// extended by the field's response key.
    pub fn field_sub_executor(
        &self,
        response_name: &str,
        selection_set: Option<&'a Vec<Selection<S>>>,
    ) -> (r: Executor<'a, S>)
        ensures
            r.variables == self.variables,
            r.fragments == self.fragments,
            r.schema == self.schema,
            r.selection_set == selection_set,
            texts(r.path@) == texts(self.path@).push(response_name@),
    {
        let mut path = copy_path(&self.path);
        path.push(response_name.to_owned());
        assert(texts(path@) =~= texts(self.path@).push(response_name@));
        Executor {
            variables: self.variables,
            fragments: self.fragments,
            schema: self.schema,
            selection_set,
            path,
        }
    }

    /// The scope of a fragment of the current selection set: the same
    /// request, document, schema and path, and the fragment's selection set.
    pub fn type_sub_executor(&self, selection_set: Option<&'a Vec<Selection<S>>>) -> (r: Executor<
        'a,
        S,
    >)
        ensures
            r.variables == self.variables,
            r.fragments == self.fragments,
            r.schema == self.schema,
            r.selection_set == selection_set,
            texts(r.path@) == texts(self.path@),
    {
        Executor {
            variables: self.variables,
            fragments: self.fragments,
            schema: self.schema,
            selection_set,
            path: copy_path(&self.path),
        }
    }
}

/// One more selection that takes part adds one unit with its trace, and one
/// that is excluded adds none.
proof fn lemma_answers_step<'a, S: ScalarValue, T: GraphQLTypeAsync<S>>(
    instance: T,
    context: T::Context,
    executor: Executor<'a, S>,
    selections: Vec<Selection<S>>,
    meta: MetaType<S>,
    depth: nat,
    units: Seq<ResolvedModel>,
    traces: Seq<Seq<ErrorModel>>,
    after: Seq<ResolvedModel>,
    after_traces: Seq<Seq<ErrorModel>>,
    n: int,
)
    requires
        0 <= n < selections.len(),
        answers(instance, context, executor, selections, meta, depth, n, units, traces),
        selection_excluded(selections[n], named_inputs(executor.variables@)) ==> after == units
            && after_traces == traces,
        !selection_excluded(selections[n], named_inputs(executor.variables@)) ==> after.len()
            == units.len() + 1 && after.drop_last() == units && after_traces.len() == after.len()
            && after_traces.drop_last() == traces && unit_fits(
            instance,
            context,
            executor,
            selections[n],
            meta,
            depth,
            after.last(),
            after_traces.last(),
        ),
    ensures
        answers(instance, context, executor, selections, meta, depth, n + 1, after, after_traces),
{
    let vars = named_inputs(executor.variables@);
    let longer = selections@.take(n + 1);
    assert(longer.drop_last() =~= selections@.take(n));
    assert(longer.last() == selections[n]);
    let before = chosen_indices(selections@.take(n), vars);
    let picked = chosen_indices(longer, vars);
    assert forall|k: int| 0 <= k < after.len() implies 0 <= #[trigger] picked[k]
        < selections.len() by {
        if k < units.len() {
            let unit = units[k];
        }
    }
    assert forall|k: int| 0 <= k < after.len() implies unit_fits(
        instance,
        context,
        executor,
        selections[picked[k]],
        meta,
        depth,
        #[trigger] after[k],
        after_traces[k],
    ) by {
        if k < units.len() {
            let unit = units[k];
            if !selection_excluded(selections[n], vars) {
                assert(after[k] == after.drop_last()[k]);
                assert(after_traces[k] == after_traces.drop_last()[k]);
            }
        }
    }
}

/// What a resolution recorded comes after what was recorded before it, and
/// the selection set resolves to its value, recording the rest.
proof fn lemma_recorded_after<'a, S: ScalarValue, T: GraphQLTypeAsync<S>>(
    instance: T,
    context: T::Context,
    executor: Executor<'a, S>,
    selections: Vec<Selection<S>>,
    meta: MetaType<S>,
    depth: nat,
    value: Tree,
    before: Seq<ErrorModel>,
    recorded: Seq<ErrorModel>,
) -> (more: Seq<ErrorModel>)
    requires
        resolution(instance, context, executor, selections, meta, depth, value, before, recorded),
    ensures
        recorded == before + more,
        resolves_to(instance, context, executor, selections, meta, depth, value, more),
{
    let more = recorded.subrange(before.len() as int, recorded.len() as int);
    assert(before + more =~= recorded);
    more
}

/// The failures of traces with one more trace are those of the traces and
/// then those of the one more.
proof fn lemma_flatten_push(traces: Seq<Seq<ErrorModel>>, more: Seq<ErrorModel>)
    ensures
        flatten(traces.push(more)) == flatten(traces) + more,
{
    assert(traces.push(more).drop_last() =~= traces);
}

fn resolve_selection_set_into_async_recursive<'a, S: ScalarValue, T: GraphQLTypeAsync<S>>(
    instance: &T,
    meta_type: &MetaType<S>,
    selection_set: &'a Vec<Selection<S>>,
    executor: &Executor<'a, S>,
    context: &T::Context,
    errors: &mut Vec<ExecutionError>,
    Ghost(depth): Ghost<nat>,
) -> (value: Value<S>)
    requires
        resolvable(*selection_set, executor.fragments@, *meta_type, depth),
    ensures
        resolution(
            *instance,
            *context,
            *executor,
            *selection_set,
            *meta_type,
            depth,
            value@,
            error_models(old(errors)@),
            error_models(final(errors)@),
        ),
    decreases depth, *selection_set,
{
    let ghost vars = named_inputs(executor.variables@);
    let ghost start = error_models(errors@);
    let ghost mut traces = Seq::<Seq<ErrorModel>>::empty();
    let mut units: Vec<Resolved<S>> = Vec::new();
    let mut i: usize = 0;
    assert(selection_set@.take(0) =~= Seq::empty());
    assert(start + flatten(traces) =~= start);
    assert(resolved_models(units@) =~= Seq::empty());
    while i < selection_set.len()
        invariant
            i <= selection_set.len(),
            resolvable(*selection_set, executor.fragments@, *meta_type, depth),
            vars == named_inputs(executor.variables@),
            answers(
                *instance,
                *context,
                *executor,
                *selection_set,
                *meta_type,
                depth,
                i as int,
                resolved_models(units@),
                traces,
            ),
            error_models(errors@) == start + flatten(traces),
        decreases selection_set.len() - i,
    {
        let selection = &selection_set[i];
        let ghost before = resolved_models(units@);
        let ghost before_traces = traces;
        let ghost so_far = error_models(errors@);
        assert(decreases_to!(*selection_set => selection_set[i as int]));
        match selection {
            Selection::Field(f) => {
                if !is_excluded(&f.directives, executor.variables) {
                    let key = f.response_name();
                    if same_text(f.name.as_str(), "__typename") {
                        let name = instance.concrete_type_name(context);
                        assert(type_name_answer::<S, T>(*instance, *context, name@));
                        proof {
                            let more = Seq::<ErrorModel>::empty();
                            lemma_flatten_push(traces, more);
                            assert(start + (flatten(traces) + more) =~= so_far);
                            traces = traces.push(more);
                        }
                        units.push(Resolved::TypeName { key: key.to_owned(), name });
                    } else {
                        let meta_field = meta_type.field_by_name(f.name.as_str()).unwrap();
                        let nested = match &f.selection_set {
                            Some(s) => Some(s),
                            None => None,
                        };
                        let sub = executor.field_sub_executor(key, nested);
                        let args = Arguments::new(
                            &f.arguments,
                            executor.variables,
                            &meta_field.arguments,
                        );
                        let non_null = meta_field.field_type.is_non_null();
                        let name = f.name.as_str();
                        let answer = instance.resolve_field_async(name, &args, &sub, context);
                        assert(field_answer(*instance, *context, *executor, *f, *meta_type, answer))
                            by {
                            assert(handed_arguments(args, *f, vars, *meta_type));
                            assert(field_scope(sub, *executor, *f));
                            assert(call_ensures(
                                T::resolve_field_async,
                                (instance, name, &args, &sub, context),
                                answer,
                            ));
                        }
                        let result = answer.result;
                        let mut recorded = answer.recorded;
                        let ghost more = error_models(recorded@);
                        errors.append(&mut recorded);
                        proof {
                            assert(error_models(errors@) =~= so_far + more);
                            lemma_flatten_push(traces, more);
                            assert(start + (flatten(traces) + more) =~= so_far + more);
                            traces = traces.push(more);
                        }
                        units.push(
                            Resolved::Field {
                                key: key.to_owned(),
                                position: f.position,
                                non_null,
                                result,
                            },
                        );
                    }
                }
            },
            Selection::FragmentSpread(spread) => {
                if !is_excluded(&spread.directives, executor.variables) {
                    let fragment = executor.fragment_by_name(spread.name.as_str()).unwrap();
                    let value = resolve_selection_set_into_async_recursive(
                        instance,
                        meta_type,
                        &fragment.selection_set,
                        executor,
                        context,
                        errors,
                        Ghost((depth - 1) as nat),
                    );
                    proof {
                        let more = lemma_recorded_after(
                            *instance,
                            *context,
                            *executor,
                            fragment.selection_set,
                            *meta_type,
                            (depth - 1) as nat,
                            value@,
                            so_far,
                            error_models(errors@),
                        );
                        lemma_flatten_push(traces, more);
                        assert(start + (flatten(traces) + more) =~= so_far + more);
                        traces = traces.push(more);
                    }
                    units.push(Resolved::Nested { value });
                }
            },
            Selection::InlineFragment(f) => {
                if !is_excluded(&f.directives, executor.variables) {
                    let sub = executor.type_sub_executor(Some(&f.selection_set));
                    match &f.type_condition {
                        Some(condition) => {
                            let target = condition.as_str();
                            let answer = instance.resolve_into_type_async(target, &sub, context);
                            assert(downcast_answer(*instance, *context, *executor, *f, answer)) by {
                                assert(fragment_scope(sub, *executor, *f));
                                assert(call_ensures(
                                    T::resolve_into_type_async,
                                    (instance, target, &sub, context),
                                    answer,
                                ));
                            }
                            let result = answer.result;
                            let mut recorded = answer.recorded;
                            let ghost more = error_models(recorded@);
                            errors.append(&mut recorded);
                            proof {
                                assert(error_models(errors@) =~= so_far + more);
                                lemma_flatten_push(traces, more);
                                assert(start + (flatten(traces) + more) =~= so_far + more);
                                traces = traces.push(more);
                            }
                            units.push(Resolved::Downcast { position: f.position, result });
                        },
                        None => {
                            let value = resolve_selection_set_into_async_recursive(
                                instance,
                                meta_type,
                                &f.selection_set,
                                &sub,
                                context,
                                errors,
                                Ghost(depth),
                            );
                            proof {
                                assert(fragment_scope(sub, *executor, *f));
                                let more = lemma_recorded_after(
                                    *instance,
                                    *context,
                                    sub,
                                    f.selection_set,
                                    *meta_type,
                                    depth,
                                    value@,
                                    so_far,
                                    error_models(errors@),
                                );
                                lemma_flatten_push(traces, more);
                                assert(start + (flatten(traces) + more) =~= so_far + more);
                                traces = traces.push(more);
                            }
                            units.push(Resolved::Nested { value });
                        },
                    }
                }
            },
        }
        proof {
            let after = resolved_models(units@);
            if !selection_excluded(*selection, vars) {
                assert(after.drop_last() =~= before);
                assert(after.last() == units@[units@.len() - 1]@);
                assert(traces.drop_last() =~= before_traces);
            } else {
                assert(after =~= before);
            }
            lemma_answers_step(
                *instance,
                *context,
                *executor,
                *selection_set,
                *meta_type,
                depth,
                before,
                before_traces,
                after,
                traces,
                i as int,
            );
        }
        i += 1;
    }
    let ghost models = resolved_models(units@);
    let value = settle(units, &executor.path, errors);
    proof {
        let path = texts(executor.path@);
        let recorded = error_models(errors@);
        let rest = recorded.subrange(start.len() as int, recorded.len() as int);
        assert(recorded =~= start + (flatten(traces) + settle_errors(models, path)));
        assert(recorded.subrange(0, start.len() as int) =~= start);
        assert(rest =~= flatten(traces) + settle_errors(models, path));
        assert(answers(
            *instance,
            *context,
            *executor,
            *selection_set,
            *meta_type,
            depth,
            selection_set.len() as int,
            models,
            traces,
        ) && value@ == settle_value(models) && rest == flatten(traces) + settle_errors(
            models,
            path,
        ));
    }
    value
}

/// Resolves a selection set against an instance of the type that `meta_type`
/// describes. Selections that their directives exclude take no part. Of the
/// others, in declaration order: the type-name meta-field takes the
/// instance's concrete type name; a field is resolved by the instance, with
/// its coerced arguments and in its own scope; a fragment spread and an
/// inline fragment without a type condition are resolved against the same
/// instance; an inline fragment with a type condition is resolved by the
/// instance as that type. The answers are then completed into one value.
pub fn resolve_selection_set_into_async<'a, S: ScalarValue, T: GraphQLTypeAsync<S>>(
    instance: &T,
    meta_type: &MetaType<S>,
    selection_set: &'a Vec<Selection<S>>,
    executor: &Executor<'a, S>,
    context: &T::Context,
    errors: &mut Vec<ExecutionError>,
) -> (value: Value<S>)
    requires
        exists|depth: nat| resolvable(*selection_set, executor.fragments@, *meta_type, depth),
    ensures
        resolved(
            *instance,
            *context,
            *executor,
            *selection_set,
            *meta_type,
            value@,
            error_models(old(errors)@),
            error_models(final(errors)@),
        ),
{
    let ghost depth = choose|depth: nat|
        resolvable(*selection_set, executor.fragments@, *meta_type, depth);
    resolve_selection_set_into_async_recursive(instance, meta_type, selection_set, executor, context, errors, Ghost(depth))
}

/// Resolves the selection set that the executor holds against an instance
/// of the type that `meta_type` describes. The executor has to hold one:
/// a type without fields resolves itself.
pub fn resolve_async<'a, S: ScalarValue, T: GraphQLTypeAsync<S>>(
    instance: &T,
    meta_type: &MetaType<S>,
    executor: &Executor<'a, S>,
    context: &T::Context,
    errors: &mut Vec<ExecutionError>,
) -> (r: Result<Value<S>, FieldError>)
    requires
        executor.selection_set is Some,
        exists|depth: nat|
            resolvable(*executor.selection_set.unwrap(), executor.fragments@, *meta_type, depth),
    ensures
        r is Ok,
        resolved(
            *instance,
            *context,
            *executor,
            *executor.selection_set.unwrap(),
            *meta_type,
            r.unwrap()@,
            error_models(old(errors)@),
            error_models(final(errors)@),
        ),
{
    let selection_set = executor.selection_set.unwrap();
    let value = resolve_selection_set_into_async(
        instance,
        meta_type,
        selection_set,
        executor,
        context,
        errors,
    );
    Ok(value)
}

/// Resolves an instance as the type that a fragment asks for, where that is
/// the instance's own type: the selection set that the executor holds is
/// resolved against the instance. The type asked for has to be the
/// instance's own; a type with other concrete types answers for itself.
pub fn resolve_into_own_type<'a, S: ScalarValue, T: GraphQLTypeAsync<S>>(
    instance: &T,
    meta_type: &MetaType<S>,
    target: &str,
    executor: &Executor<'a, S>,
    context: &T::Context,
    errors: &mut Vec<ExecutionError>,
) -> (r: Result<Value<S>, FieldError>)
    requires
        meta_type.name@ == target@,
        executor.selection_set is Some,
        exists|depth: nat|
            resolvable(*executor.selection_set.unwrap(), executor.fragments@, *meta_type, depth),
    ensures
        r is Ok,
        resolved(
            *instance,
            *context,
            *executor,
            *executor.selection_set.unwrap(),
            *meta_type,
            r.unwrap()@,
            error_models(old(errors)@),
            error_models(final(errors)@),
        ),
{
    resolve_async(instance, meta_type, executor, context, errors)
}

/// Resolves a selection set against an instance of the type registered
/// under `name`, after testing that it can be resolved: the schema has to
/// hold the type, and the selection set has to be resolvable within as many
/// levels of fragment spreads as the document has fragments. Where the test
/// fails nothing is resolved and nothing recorded.
pub fn resolve_checked<'a, S: ScalarValue, T: GraphQLTypeAsync<S>>(
    instance: &T,
    name: &str,
    selection_set: &'a Vec<Selection<S>>,
    executor: &Executor<'a, S>,
    context: &T::Context,
    errors: &mut Vec<ExecutionError>,
) -> (r: Option<Value<S>>)
    ensures
        r is Some <==> (match lookup(named_types(executor.schema.types()), name@) {
            Some(meta) => resolvable(
                *selection_set,
                executor.fragments@,
                meta,
                executor.fragments@.len(),
            ),
            None => false,
        }),
        r is Some ==> resolved(
            *instance,
            *context,
            *executor,
            *selection_set,
            lookup(named_types(executor.schema.types()), name@).unwrap(),
            r.unwrap()@,
            error_models(old(errors)@),
            error_models(final(errors)@),
        ),
        r is None ==> final(errors)@ == old(errors)@,
{
    match executor.schema.concrete_type_by_name(name) {
        Some(meta_type) => {
            if can_resolve(selection_set, executor.fragments, meta_type, executor.fragments.len()) {
                let value = resolve_selection_set_into_async(
                    instance,
                    meta_type,
                    selection_set,
                    executor,
                    context,
                    errors,
                );
                Some(value)
            } else {
                None
            }
        },
        None => None,
    }
}

} // verus!
