//! Ownership delegation: an owned, a borrowed and a shared handle on a
//! schema type each do what the type does, and nothing else.

use std::sync::Arc;
use vstd::prelude::*;
use crate::executor::Answer;
use crate::executor::Executor;
use crate::executor::GraphQLTypeAsync;
use crate::input::FromInputValue;
use crate::input::InputValue;
use crate::input::ToInputValue;
use crate::scalar::ScalarValue;
use crate::schema::Arguments;
use crate::schema::GraphQLType;
use crate::schema::MetaType;

verus! {

impl<S: ScalarValue, T: GraphQLTypeAsync<S>> GraphQLTypeAsync<S> for Box<T> {
    type Context = T::Context;

    fn concrete_type_name(&self, context: &Self::Context) -> (r: String)
        ensures
            call_ensures(T::concrete_type_name, (&**self, context), r),
    {
        (**self).concrete_type_name(context)
    }

    fn resolve_field_async(
        &self,
        field_name: &str,
        arguments: &Arguments<S>,
        executor: &Executor<S>,
        context: &Self::Context,
    ) -> (r: Answer<S>)
        ensures
            call_ensures(
                T::resolve_field_async,
                (&**self, field_name, arguments, executor, context),
                r,
            ),
    {
        (**self).resolve_field_async(field_name, arguments, executor, context)
    }

    fn resolve_into_type_async(
        &self,
        target: &str,
        executor: &Executor<S>,
        context: &Self::Context,
    ) -> (r: Answer<S>)
        ensures
            call_ensures(T::resolve_into_type_async, (&**self, target, executor, context), r),
    {
        (**self).resolve_into_type_async(target, executor, context)
    }
}

impl<'e, S: ScalarValue, T: GraphQLTypeAsync<S>> GraphQLTypeAsync<S> for &'e T {
    type Context = T::Context;

    fn concrete_type_name(&self, context: &Self::Context) -> (r: String)
        ensures
            call_ensures(T::concrete_type_name, (&**self, context), r),
    {
        (**self).concrete_type_name(context)
    }

    fn resolve_field_async(
        &self,
        field_name: &str,
        arguments: &Arguments<S>,
        executor: &Executor<S>,
        context: &Self::Context,
    ) -> (r: Answer<S>)
        ensures
            call_ensures(
                T::resolve_field_async,
                (&**self, field_name, arguments, executor, context),
                r,
            ),
    {
        (**self).resolve_field_async(field_name, arguments, executor, context)
    }

    fn resolve_into_type_async(
        &self,
        target: &str,
        executor: &Executor<S>,
        context: &Self::Context,
    ) -> (r: Answer<S>)
        ensures
            call_ensures(T::resolve_into_type_async, (&**self, target, executor, context), r),
    {
        (**self).resolve_into_type_async(target, executor, context)
    }
}

impl<S: ScalarValue, T: GraphQLTypeAsync<S>> GraphQLTypeAsync<S> for Arc<T> {
    type Context = T::Context;

    fn concrete_type_name(&self, context: &Self::Context) -> (r: String)
        ensures
            call_ensures(T::concrete_type_name, (&**self, context), r),
    {
        (**self).concrete_type_name(context)
    }

    fn resolve_field_async(
        &self,
        field_name: &str,
        arguments: &Arguments<S>,
        executor: &Executor<S>,
        context: &Self::Context,
    ) -> (r: Answer<S>)
        ensures
            call_ensures(
                T::resolve_field_async,
                (&**self, field_name, arguments, executor, context),
                r,
            ),
    {
        (**self).resolve_field_async(field_name, arguments, executor, context)
    }

    fn resolve_into_type_async(
        &self,
        target: &str,
        executor: &Executor<S>,
        context: &Self::Context,
    ) -> (r: Answer<S>)
        ensures
            call_ensures(T::resolve_into_type_async, (&**self, target, executor, context), r),
    {
        (**self).resolve_into_type_async(target, executor, context)
    }
}

impl<S: ScalarValue, T: GraphQLType<S>> GraphQLType<S> for Box<T> {
    type TypeInfo = T::TypeInfo;

    fn name(info: &Self::TypeInfo) -> (r: Option<String>)
        ensures
            call_ensures(T::name, (info,), r),
    {
        T::name(info)
    }

    fn meta(info: &Self::TypeInfo) -> (r: MetaType<S>)
        ensures
            call_ensures(T::meta, (info,), r),
    {
        T::meta(info)
    }
}

impl<'e, S: ScalarValue, T: GraphQLType<S>> GraphQLType<S> for &'e T {
    type TypeInfo = T::TypeInfo;

    fn name(info: &Self::TypeInfo) -> (r: Option<String>)
        ensures
            call_ensures(T::name, (info,), r),
    {
        T::name(info)
    }

    fn meta(info: &Self::TypeInfo) -> (r: MetaType<S>)
        ensures
            call_ensures(T::meta, (info,), r),
    {
        T::meta(info)
    }
}

impl<S: ScalarValue, T: GraphQLType<S>> GraphQLType<S> for Arc<T> {
    type TypeInfo = T::TypeInfo;

    fn name(info: &Self::TypeInfo) -> (r: Option<String>)
        ensures
            call_ensures(T::name, (info,), r),
    {
        T::name(info)
    }

    fn meta(info: &Self::TypeInfo) -> (r: MetaType<S>)
        ensures
            call_ensures(T::meta, (info,), r),
    {
        T::meta(info)
    }
}

impl<S: ScalarValue, T: ToInputValue<S>> ToInputValue<S> for Box<T> {
    fn to_input_value(&self) -> (r: InputValue<S>)
        ensures
            call_ensures(T::to_input_value, (&**self,), r),
    {
        (**self).to_input_value()
    }
}

impl<'e, S: ScalarValue, T: ToInputValue<S>> ToInputValue<S> for &'e T {
    fn to_input_value(&self) -> (r: InputValue<S>)
        ensures
            call_ensures(T::to_input_value, (&**self,), r),
    {
        (**self).to_input_value()
    }
}

impl<S: ScalarValue, T: ToInputValue<S>> ToInputValue<S> for Arc<T> {
    fn to_input_value(&self) -> (r: InputValue<S>)
        ensures
            call_ensures(T::to_input_value, (&**self,), r),
    {
        (**self).to_input_value()
    }
}

/// What reading an owned handle from an input value gives, from what
/// reading the type itself gave: the handle on the value that was read, or
/// none where none was read.
pub fn boxed<T>(read: Option<T>) -> (r: Option<Box<T>>)
    ensures
        r is Some <==> read is Some,
        r is Some ==> *r.unwrap() == read.unwrap(),
{
    match read {
        Some(v) => Some(Box::new(v)),
        None => None,
    }
}

impl<S: ScalarValue, T: FromInputValue<S>> FromInputValue<S> for Box<T> {
    fn from_input_value(v: &InputValue<S>) -> (r: Option<Self>)
        ensures
            exists|read: Option<T>|
                #![trigger call_ensures(T::from_input_value, (v,), read)]
                call_ensures(T::from_input_value, (v,), read) && (r is Some <==> read is Some)
                    && (r is Some ==> *r.unwrap() == read.unwrap()),
    {
        let read = T::from_input_value(v);
        boxed(read)
    }
}

} // verus!
