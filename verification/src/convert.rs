//! Values from host values, through `From`. What each conversion gives is
//! stated on the conversion itself, over the tree of the value: two values
//! of one tree need not be the same value, so nothing is claimed through
//! `from_spec`.

use vstd::prelude::*;
use vstd::std_specs::convert::FromSpecImpl;
use crate::scalar::ScalarValue;
use crate::value::scalar_tree;
use crate::value::Tree;
use crate::value::Value;

verus! {

impl<S: ScalarValue> From<i32> for Value<S> {
    fn from(i: i32) -> (v: Self)
        ensures
            v@ == scalar_tree::<S, i32>(i),
    {
        Value::scalar(i)
    }
}

impl<S: ScalarValue> FromSpecImpl<i32> for Value<S> {
    open spec fn obeys_from_spec() -> bool {
        false
    }

    open spec fn from_spec(i: i32) -> Self {
        choose|v: Value<S>| v@ == scalar_tree::<S, i32>(i)
    }
}

impl<S: ScalarValue> From<i64> for Value<S> {
    fn from(i: i64) -> (v: Self)
        ensures
            v@ == scalar_tree::<S, i64>(i),
    {
        Value::scalar(i)
    }
}

impl<S: ScalarValue> FromSpecImpl<i64> for Value<S> {
    open spec fn obeys_from_spec() -> bool {
        false
    }

    open spec fn from_spec(i: i64) -> Self {
        choose|v: Value<S>| v@ == scalar_tree::<S, i64>(i)
    }
}

impl<S: ScalarValue> From<bool> for Value<S> {
    fn from(b: bool) -> (v: Self)
        ensures
            v@ == scalar_tree::<S, bool>(b),
    {
        Value::scalar(b)
    }
}

impl<S: ScalarValue> FromSpecImpl<bool> for Value<S> {
    open spec fn obeys_from_spec() -> bool {
        false
    }

    open spec fn from_spec(b: bool) -> Self {
        choose|v: Value<S>| v@ == scalar_tree::<S, bool>(b)
    }
}

impl<S: ScalarValue> From<String> for Value<S> {
    fn from(s: String) -> (v: Self)
        ensures
            v@ == scalar_tree::<S, String>(s),
    {
        Value::scalar(s)
    }
}

impl<S: ScalarValue> FromSpecImpl<String> for Value<S> {
    open spec fn obeys_from_spec() -> bool {
        false
    }

    open spec fn from_spec(s: String) -> Self {
        choose|v: Value<S>| v@ == scalar_tree::<S, String>(s)
    }
}

impl<'a, S: ScalarValue> From<&'a str> for Value<S> {
    fn from(s: &'a str) -> (v: Self)
        ensures
            v@ == scalar_tree::<S, &'a str>(s),
    {
        Value::scalar(s)
    }
}

impl<'a, S: ScalarValue> FromSpecImpl<&'a str> for Value<S> {
    open spec fn obeys_from_spec() -> bool {
        false
    }

    open spec fn from_spec(s: &'a str) -> Self {
        choose|v: Value<S>| v@ == scalar_tree::<S, &'a str>(s)
    }
}

impl<'a, S: ScalarValue> From<Option<&'a str>> for Value<S> {
    fn from(o: Option<&'a str>) -> (v: Self)
        ensures
            v@ == (match o {
                Some(s) => scalar_tree::<S, &'a str>(s),
                None => Tree::Null,
            }),
    {
        match o {
            Some(s) => Value::scalar(s),
            None => Value::Null,
        }
    }
}

impl<'a, S: ScalarValue> FromSpecImpl<Option<&'a str>> for Value<S> {
    open spec fn obeys_from_spec() -> bool {
        false
    }

    open spec fn from_spec(o: Option<&'a str>) -> Self {
        choose|v: Value<S>|
            v@ == (match o {
                Some(s) => scalar_tree::<S, &'a str>(s),
                None => Tree::Null,
            })
    }
}

} // verus!
