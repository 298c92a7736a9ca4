//! The selection sets of a query: fields, fragment spreads and inline
//! fragments, each with its directives.

use vstd::prelude::*;
use crate::input::named_inputs;
use crate::input::substitute;
use crate::input::find_named;
use crate::input::InputTree;
use crate::input::InputValue;
use crate::scalar::same_text;
use crate::scalar::Leaf;
use crate::scalar::ScalarValue;
use crate::settle::SourcePosition;
use crate::value::lookup;

verus! {

/// A directive on a selection, with its arguments as written.
#[derive(Debug, PartialEq)]
pub struct Directive<S: ScalarValue> {
    pub name: String,
    pub arguments: Vec<(String, InputValue<S>)>,
}

/// A field of a selection set.
#[derive(Debug, PartialEq)]
pub struct Field<S: ScalarValue> {
    pub alias: Option<String>,
    pub name: String,
    pub arguments: Vec<(String, InputValue<S>)>,
    pub directives: Vec<Directive<S>>,
    pub selection_set: Option<Vec<Selection<S>>>,
    pub position: SourcePosition,
}

/// The spread of a named fragment.
#[derive(Debug, PartialEq)]
pub struct FragmentSpread<S: ScalarValue> {
    pub name: String,
    pub directives: Vec<Directive<S>>,
}

/// A fragment written in place, with or without a type condition.
#[derive(Debug, PartialEq)]
pub struct InlineFragment<S: ScalarValue> {
    pub type_condition: Option<String>,
    pub directives: Vec<Directive<S>>,
    pub selection_set: Vec<Selection<S>>,
    pub position: SourcePosition,
}

/// One entry of a selection set.
#[derive(Debug, PartialEq)]
pub enum Selection<S: ScalarValue> {
    Field(Field<S>),
    FragmentSpread(FragmentSpread<S>),
    InlineFragment(InlineFragment<S>),
}

/// A named fragment of the document.
#[derive(Debug, PartialEq)]
pub struct Fragment<S: ScalarValue> {
    pub name: String,
    pub type_condition: String,
    pub selection_set: Vec<Selection<S>>,
}

/// The boolean that a directive's `if` argument has under `vars`, where the
/// directive has that argument and it resolves to a boolean.
pub open spec fn condition<S: ScalarValue>(
    directive: Directive<S>,
    vars: Seq<(Seq<char>, InputTree)>,
) -> Option<bool> {
    match lookup(named_inputs(directive.arguments@), "if"@) {
        Some(written) => match substitute(written, vars) {
            InputTree::Scalar(Leaf::Boolean(b)) => Some(b),
            _ => None,
        },
        None => None,
    }
}

/// Whether a directive excludes its selection: `skip` does where its
/// condition is true, `include` where its condition is false.
pub open spec fn excludes<S: ScalarValue>(
    directive: Directive<S>,
    vars: Seq<(Seq<char>, InputTree)>,
) -> bool {
    (directive.name@ == "skip"@ && condition(directive, vars) == Some(true)) || (directive.name@
        == "include"@ && condition(directive, vars) == Some(false))
}

/// Whether some directive of `directives` excludes the selection.
pub open spec fn excluded<S: ScalarValue>(
    directives: Seq<Directive<S>>,
    vars: Seq<(Seq<char>, InputTree)>,
) -> bool {
    exists|i: int| 0 <= i < directives.len() && excludes(#[trigger] directives[i], vars)
}

/// Evaluates the condition of one directive under the variables.
pub fn directive_condition<S: ScalarValue>(
    directive: &Directive<S>,
    vars: &Vec<(String, InputValue<S>)>,
) -> (r: Option<bool>)
    ensures
        r == condition(*directive, named_inputs(vars@)),
{
    let at = find_named(&directive.arguments, "if");
    if at < directive.arguments.len() {
        let resolved = directive.arguments[at].1.into_const(vars);
        resolved.as_boolean()
    } else {
        None
    }
}

/// Whether the directives exclude their selection under the variables.
pub fn is_excluded<S: ScalarValue>(
    directives: &Vec<Directive<S>>,
    vars: &Vec<(String, InputValue<S>)>,
) -> (r: bool)
    ensures
        r == excluded(directives@, named_inputs(vars@)),
{
    let mut i: usize = 0;
    while i < directives.len()
        invariant
            i <= directives.len(),
            forall|j: int| 0 <= j < i ==> !excludes(#[trigger] directives@[j], named_inputs(vars@)),
        decreases directives.len() - i,
    {
        let directive = &directives[i];
        let held = directive_condition(directive, vars);
        let skips = same_text(directive.name.as_str(), "skip");
        let keeps = same_text(directive.name.as_str(), "include");
        let excluding = match held {
            Some(b) => (skips && b) || (keeps && !b),
            None => false,
        };
        if excluding {
            return true;
        }
        i += 1;
    }
    false
}

impl<S: ScalarValue> Field<S> {
    /// The key under which the field's value is recorded: the alias where
    /// there is one, else the name.
    pub open spec fn response_key(self) -> Seq<char> {
        match self.alias {
            Some(a) => a@,
            None => self.name@,
        }
    }

    /// The key under which the field's value is recorded.
    pub fn response_name(&self) -> (r: &str)
        ensures
            r@ == self.response_key(),
    {
        match &self.alias {
            Some(a) => a.as_str(),
            None => self.name.as_str(),
        }
    }
}

} // verus!
