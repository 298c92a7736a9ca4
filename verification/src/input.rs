//! Input values: the literals and variable references of a query, and their
//! resolution against the variables of a request.

use vstd::prelude::*;
use crate::scalar::same_text;
use crate::scalar::Leaf;
use crate::scalar::ScalarValue;
use crate::value::lemma_position_is;
use crate::value::lookup;
use crate::value::position_of;
use crate::value::Tree;
use crate::value::Value;

verus! {

/// The mathematical content of an input value.
pub enum InputTree {
    Null,
    Scalar(Leaf),
    Enum(Seq<char>),
    Variable(Seq<char>),
    List(Seq<InputTree>),
    Object(Seq<(Seq<char>, InputTree)>),
}

/// A literal or a variable reference of a query.
#[derive(Debug, PartialEq)]
pub enum InputValue<S: ScalarValue> {
    Null,
    Scalar(S),
    Enum(String),
    Variable(String),
    List(Vec<InputValue<S>>),
    Object(Vec<(String, InputValue<S>)>),
}

/// The tree that an input value stands for.
pub open spec fn input_tree_of<S: ScalarValue>(v: InputValue<S>) -> InputTree
    decreases v,
{
    match v {
        InputValue::Null => InputTree::Null,
        InputValue::Scalar(s) => InputTree::Scalar(s.leaf()),
        InputValue::Enum(e) => InputTree::Enum(e@),
        InputValue::Variable(n) => InputTree::Variable(n@),
        InputValue::List(l) => InputTree::List(
            Seq::new(
                l.len() as nat,
                |i: int|
                    if 0 <= i < l.len() {
                        input_tree_of(l[i])
                    } else {
                        InputTree::Null
                    },
            ),
        ),
        InputValue::Object(o) => InputTree::Object(
            Seq::new(
                o.len() as nat,
                |i: int|
                    if 0 <= i < o.len() {
                        (o[i].0@, input_tree_of(o[i].1))
                    } else {
                        (Seq::empty(), InputTree::Null)
                    },
            ),
        ),
    }
}

impl<S: ScalarValue> View for InputValue<S> {
    type V = InputTree;

    open spec fn view(&self) -> InputTree {
        input_tree_of(*self)
    }
}

/// The trees of a sequence of named input values, in order.
pub open spec fn named_inputs<S: ScalarValue>(pairs: Seq<(String, InputValue<S>)>) -> Seq<
    (Seq<char>, InputTree),
> {
    Seq::new(pairs.len(), |i: int| (pairs[i].0@, pairs[i].1@))
}

/// An input tree with every variable reference replaced by the value that
/// `vars` holds under its name, or by null where `vars` holds none.
pub open spec fn substitute(t: InputTree, vars: Seq<(Seq<char>, InputTree)>) -> InputTree
    decreases t,
{
    match t {
        InputTree::Variable(n) => match lookup(vars, n) {
            Some(v) => v,
            None => InputTree::Null,
        },
        InputTree::List(items) => InputTree::List(
            Seq::new(
                items.len(),
                |i: int|
                    if 0 <= i < items.len() {
                        substitute(items[i], vars)
                    } else {
                        InputTree::Null
                    },
            ),
        ),
        InputTree::Object(fields) => InputTree::Object(
            Seq::new(
                fields.len(),
                |i: int|
                    if 0 <= i < fields.len() {
                        (fields[i].0, substitute(fields[i].1, vars))
                    } else {
                        (Seq::empty(), InputTree::Null)
                    },
            ),
        ),
        _ => t,
    }
}

/// A result tree read as an input tree: the same shape, keys and leaves.
pub open spec fn as_input(t: Tree) -> InputTree
    decreases t,
{
    match t {
        Tree::Null => InputTree::Null,
        Tree::Scalar(l) => InputTree::Scalar(l),
        Tree::List(items) => InputTree::List(
            Seq::new(
                items.len(),
                |i: int|
                    if 0 <= i < items.len() {
                        as_input(items[i])
                    } else {
                        InputTree::Null
                    },
            ),
        ),
        Tree::Object(fields) => InputTree::Object(
            Seq::new(
                fields.len(),
                |i: int|
                    if 0 <= i < fields.len() {
                        (fields[i].0, as_input(fields[i].1))
                    } else {
                        (Seq::empty(), InputTree::Null)
                    },
            ),
        ),
    }
}

impl<S: ScalarValue> Value<S> {
    /// This value as an input value: the same shape, keys and leaves.
    pub fn to_input_value(&self) -> (r: InputValue<S>)
        ensures
            r@ == as_input(self@),
        decreases self,
    {
        match self {
            Value::Null => InputValue::Null,
            Value::Scalar(s) => InputValue::Scalar(copy_scalar(s)),
            Value::List(l) => {
                let mut out: Vec<InputValue<S>> = Vec::new();
                let mut i: usize = 0;
                while i < l.len()
                    invariant
                        self is List,
                        self->List_0 == *l,
                        i <= l.len(),
                        out@.len() == i,
                        forall|k: int| 0 <= k < i ==> (#[trigger] out@[k])@ == as_input(l@[k]@),
                    decreases l.len() - i,
                {
                    out.push(l[i].to_input_value());
                    i += 1;
                }
                let r = InputValue::List(out);
                assert(r@->List_0 =~= as_input(self@)->List_0);
                r
            },
            Value::Object(o) => {
                let ghost fields = o@;
                let mut out: Vec<(String, InputValue<S>)> = Vec::new();
                let mut i: usize = 0;
                let n = o.field_count();
                while i < n
                    invariant
                        self is Object,
                        self->Object_0 == *o,
                        fields == o@,
                        n == fields.len(),
                        i <= n,
                        out@.len() == i,
                        forall|k: int|
                            0 <= k < i ==> (#[trigger] out@[k]).0@ == fields[k].0 && out@[k].1@
                                == as_input(fields[k].1),
                    decreases n - i,
                {
                    let pair = o.field_at(i).unwrap();
                    assert(decreases_to!(*o => *pair.1));
                    assert(decreases_to!(*self => self->Object_0));
                    out.push((pair.0.clone(), pair.1.to_input_value()));
                    i += 1;
                }
                let r = InputValue::Object(out);
                assert(r@->Object_0 =~= as_input(self@)->Object_0);
                r
            },
        }
    }
}

/// A host type that can be written as an input value.
pub trait ToInputValue<S: ScalarValue> {
    fn to_input_value(&self) -> InputValue<S>;
}

/// A host type that can be read from an input value.
pub trait FromInputValue<S: ScalarValue>: Sized {
    fn from_input_value(v: &InputValue<S>) -> Option<Self>;
}

impl<S: ScalarValue> ToInputValue<S> for Value<S> {
    fn to_input_value(&self) -> (r: InputValue<S>)
        ensures
            r@ == as_input(self@),
    {
        Value::to_input_value(self)
    }
}

/// A copy of a scalar.
pub fn copy_scalar<S: ScalarValue>(s: &S) -> (r: S)
    ensures
        r.leaf() == s.leaf(),
{
    proof {
        s.lemma_own_long();
    }
    if let Some(i) = s.int_ref() {
        S::from_int(*i)
    } else if let Some(b) = s.boolean_ref() {
        S::from_boolean(*b)
    } else if let Some(l) = s.long_ref() {
        S::from_long(*l)
    } else {
        let t = s.string_ref();
        S::from_string(t.unwrap().clone())
    }
}

/// The position of `name` among named input values, or their number where
/// none has that name.
pub fn find_named<S: ScalarValue>(pairs: &Vec<(String, InputValue<S>)>, name: &str) -> (at: usize)
    ensures
        at == position_of(named_inputs(pairs@), name@),
        at <= pairs.len(),
{
    let mut i: usize = 0;
    while i < pairs.len()
        invariant
            i <= pairs.len(),
            forall|j: int| 0 <= j < i ==> (#[trigger] named_inputs(pairs@)[j]).0 != name@,
        decreases pairs.len() - i,
    {
        if same_text(pairs[i].0.as_str(), name) {
            proof {
                lemma_position_is(named_inputs(pairs@), name@, i as int);
            }
            return i;
        }
        i += 1;
    }
    proof {
        lemma_position_is(named_inputs(pairs@), name@, i as int);
    }
    i
}

impl<S: ScalarValue> InputValue<S> {
    /// A copy of this input value.
    pub fn duplicate(&self) -> (r: Self)
        ensures
            r@ == self@,
        decreases self,
    {
        match self {
            InputValue::Null => InputValue::Null,
            InputValue::Scalar(s) => InputValue::Scalar(copy_scalar(s)),
            InputValue::Enum(e) => InputValue::Enum(e.clone()),
            InputValue::Variable(n) => InputValue::Variable(n.clone()),
            InputValue::List(l) => {
                let mut out: Vec<InputValue<S>> = Vec::new();
                let mut i: usize = 0;
                while i < l.len()
                    invariant
                        self is List,
                        self->List_0 == *l,
                        i <= l.len(),
                        out@.len() == i,
                        forall|k: int| 0 <= k < i ==> (#[trigger] out@[k])@ == l@[k]@,
                    decreases l.len() - i,
                {
                    out.push(l[i].duplicate());
                    i += 1;
                }
                let r = InputValue::List(out);
                assert(r@->List_0 =~= self@->List_0);
                r
            },
            InputValue::Object(o) => {
                let mut out: Vec<(String, InputValue<S>)> = Vec::new();
                let mut i: usize = 0;
                while i < o.len()
                    invariant
                        self is Object,
                        self->Object_0 == *o,
                        i <= o.len(),
                        out@.len() == i,
                        forall|k: int|
                            0 <= k < i ==> (#[trigger] out@[k]).0@ == o@[k].0@ && out@[k].1@
                                == o@[k].1@,
                    decreases o.len() - i,
                {
                    let pair = &o[i];
                    out.push((pair.0.clone(), pair.1.duplicate()));
                    i += 1;
                }
                let r = InputValue::Object(out);
                assert(r@->Object_0 =~= self@->Object_0);
                r
            },
        }
    }

    /// This input value with every variable reference resolved against
    /// `vars`; a variable that `vars` does not hold becomes null.
    pub fn into_const(&self, vars: &Vec<(String, InputValue<S>)>) -> (r: Self)
        ensures
            r@ == substitute(self@, named_inputs(vars@)),
        decreases self,
    {
        match self {
            InputValue::Null => InputValue::Null,
            InputValue::Scalar(s) => InputValue::Scalar(copy_scalar(s)),
            InputValue::Enum(e) => InputValue::Enum(e.clone()),
            InputValue::Variable(n) => {
                let at = find_named(vars, n.as_str());
                if at < vars.len() {
                    vars[at].1.duplicate()
                } else {
                    InputValue::Null
                }
            },
            InputValue::List(l) => {
                let mut out: Vec<InputValue<S>> = Vec::new();
                let mut i: usize = 0;
                while i < l.len()
                    invariant
                        self is List,
                        self->List_0 == *l,
                        i <= l.len(),
                        out@.len() == i,
                        forall|k: int|
                            0 <= k < i ==> (#[trigger] out@[k])@ == substitute(
                                l@[k]@,
                                named_inputs(vars@),
                            ),
                    decreases l.len() - i,
                {
                    out.push(l[i].into_const(vars));
                    i += 1;
                }
                let r = InputValue::List(out);
                assert(r@->List_0 =~= substitute(self@, named_inputs(vars@))->List_0);
                r
            },
            InputValue::Object(o) => {
                let mut out: Vec<(String, InputValue<S>)> = Vec::new();
                let mut i: usize = 0;
                while i < o.len()
                    invariant
                        self is Object,
                        self->Object_0 == *o,
                        i <= o.len(),
                        out@.len() == i,
                        forall|k: int|
                            0 <= k < i ==> (#[trigger] out@[k]).0@ == o@[k].0@ && out@[k].1@
                                == substitute(o@[k].1@, named_inputs(vars@)),
                    decreases o.len() - i,
                {
                    let pair = &o[i];
                    out.push((pair.0.clone(), pair.1.into_const(vars)));
                    i += 1;
                }
                let r = InputValue::Object(out);
                assert(r@->Object_0 =~= substitute(self@, named_inputs(vars@))->Object_0);
                r
            },
        }
    }

    /// A string literal.
    pub fn string(s: String) -> (r: Self)
        ensures
            r@ == InputTree::Scalar(Leaf::Text(s@)),
    {
        InputValue::Scalar(S::from_string(s))
    }

    /// The text that this input value is, where it is a string scalar.
    pub fn as_string_value(&self) -> (r: Option<&str>)
        ensures
            r is Some <==> (self@ is Scalar && self@->Scalar_0 is Text),
            r is Some ==> self@ == InputTree::Scalar(Leaf::Text(r.unwrap()@)),
    {
        match self {
            InputValue::Scalar(s) => match s.string_ref() {
                Some(t) => Some(t.as_str()),
                None => None,
            },
            _ => None,
        }
    }

    /// The boolean that this input value is, where it is a boolean scalar.
    pub fn as_boolean(&self) -> (r: Option<bool>)
        ensures
            r == (match self@ {
                InputTree::Scalar(Leaf::Boolean(b)) => Some(b),
                _ => None,
            }),
    {
        match self {
            InputValue::Scalar(s) => match s.boolean_ref() {
                Some(b) => Some(*b),
                None => None,
            },
            _ => None,
        }
    }
}

} // verus!
