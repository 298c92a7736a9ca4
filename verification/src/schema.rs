//! Static metadata of the schema: declared types, fields with their
//! arguments, and the registry that holds one descriptor per type name.

use vstd::prelude::*;
use crate::input::find_named;
use crate::input::named_inputs;
use crate::input::substitute;
use crate::input::InputTree;
use crate::input::InputValue;
use crate::scalar::same_text;
use crate::scalar::ScalarValue;
use crate::value::has_key;
use crate::value::lemma_position_is;
use crate::value::lemma_position_of;
use crate::value::lookup;
use crate::value::put;

verus! {

/// A declared type: a named type or a list, each nullable or non-null.
#[derive(Debug, PartialEq)]
pub enum Type {
    Named(String),
    List(Box<Type>),
    NonNullNamed(String),
    NonNullList(Box<Type>),
}

impl Type {
    /// Whether the type is non-null.
    pub fn is_non_null(&self) -> (r: bool)
        ensures
            r == (self is NonNullNamed || self is NonNullList),
    {
        match self {
            Type::NonNullNamed(_) => true,
            Type::NonNullList(_) => true,
            _ => false,
        }
    }
}

/// A declared argument of a field.
#[derive(Debug, PartialEq)]
pub struct Argument<S: ScalarValue> {
    pub name: String,
    pub arg_type: Type,
    pub default_value: Option<InputValue<S>>,
}

/// The descriptor of a field.
#[derive(Debug, PartialEq)]
pub struct FieldMeta<S: ScalarValue> {
    pub name: String,
    pub field_type: Type,
    pub arguments: Vec<Argument<S>>,
    pub deprecation_reason: Option<String>,
}

/// The descriptor of a type: its name, its fields, and for an interface or
/// a union the names of its possible types.
#[derive(Debug, PartialEq)]
pub struct MetaType<S: ScalarValue> {
    pub name: String,
    pub fields: Vec<FieldMeta<S>>,
    pub possible_types: Vec<String>,
}

/// The fields of a type, each under its name.
pub open spec fn named_fields<S: ScalarValue>(fields: Seq<FieldMeta<S>>) -> Seq<
    (Seq<char>, FieldMeta<S>),
> {
    Seq::new(fields.len(), |i: int| (fields[i].name@, fields[i]))
}

/// The descriptors of a registry, each under its name.
pub open spec fn named_types<S: ScalarValue>(types: Seq<MetaType<S>>) -> Seq<
    (Seq<char>, MetaType<S>),
> {
    Seq::new(types.len(), |i: int| (types[i].name@, types[i]))
}

impl<S: ScalarValue> MetaType<S> {
    /// The descriptor of the field called `name`, where the type has one.
    pub fn field_by_name(&self, name: &str) -> (r: Option<&FieldMeta<S>>)
        ensures
            r is Some <==> has_key(named_fields(self.fields@), name@),
            r is Some ==> lookup(named_fields(self.fields@), name@) == Some(*r.unwrap()),
    {
        let ghost named = named_fields(self.fields@);
        let mut i: usize = 0;
        while i < self.fields.len()
            invariant
                i <= self.fields.len(),
                named == named_fields(self.fields@),
                forall|j: int| 0 <= j < i ==> (#[trigger] named[j]).0 != name@,
            decreases self.fields.len() - i,
        {
            if same_text(self.fields[i].name.as_str(), name) {
                proof {
                    lemma_position_is(named, name@, i as int);
                }
                return Some(&self.fields[i]);
            }
            i += 1;
        }
        proof {
            lemma_position_is(named, name@, i as int);
        }
        None
    }
}

/// Static metadata of a schema type: the name under which it is registered
/// and its descriptor.
pub trait GraphQLType<S: ScalarValue> {
    /// What the type needs to know to describe itself.
    type TypeInfo;

    /// The name of the type, where it has one.
    fn name(info: &Self::TypeInfo) -> Option<String>;

    /// The descriptor of the type.
    fn meta(info: &Self::TypeInfo) -> MetaType<S>;
}

/// The descriptors of a schema, one per type name.
#[derive(Debug, PartialEq)]
pub struct Registry<S: ScalarValue> {
    types: Vec<MetaType<S>>,
}

impl<S: ScalarValue> Registry<S> {
    #[verifier::type_invariant]
    spec fn well_formed(self) -> bool {
        forall|i: int, j: int|
            0 <= i < self.types.len() && 0 <= j < self.types.len() && i != j
                ==> self.types[i].name@ != self.types[j].name@
    }

    /// The descriptors in the order in which they were registered.
    pub closed spec fn types(self) -> Seq<MetaType<S>> {
        self.types@
    }

    /// A registry without descriptors.
    pub fn new() -> (r: Self)
        ensures
            r.types() == Seq::<MetaType<S>>::empty(),
    {
        Registry { types: Vec::new() }
    }

    /// The descriptor registered under `name`, where there is one.
    pub fn concrete_type_by_name(&self, name: &str) -> (r: Option<&MetaType<S>>)
        ensures
            r is Some <==> has_key(named_types(self.types()), name@),
            r is Some ==> lookup(named_types(self.types()), name@) == Some(*r.unwrap()),
    {
        let ghost named = named_types(self.types@);
        let mut i: usize = 0;
        while i < self.types.len()
            invariant
                i <= self.types.len(),
                named == named_types(self.types@),
                forall|j: int| 0 <= j < i ==> (#[trigger] named[j]).0 != name@,
            decreases self.types.len() - i,
        {
            if same_text(self.types[i].name.as_str(), name) {
                proof {
                    lemma_position_is(named, name@, i as int);
                }
                return Some(&self.types[i]);
            }
            i += 1;
        }
        proof {
            lemma_position_is(named, name@, i as int);
        }
        None
    }

    /// Registers a descriptor. A descriptor whose name is already taken is
    /// rejected and handed back, and the registry stays as it was.
    pub fn register(&mut self, meta: MetaType<S>) -> (r: Result<(), MetaType<S>>)
        ensures
            r is Err <==> has_key(named_types(old(self).types()), meta.name@),
            r is Err ==> final(self).types() == old(self).types() && r->Err_0 == meta,
            r is Ok ==> final(self).types() == old(self).types().push(meta),
    {
        proof {
            use_type_invariant(&*self);
        }
        if self.concrete_type_by_name(meta.name.as_str()).is_some() {
            return Err(meta);
        }
        let ghost before = self.types@;
        proof {
            lemma_position_of(named_types(before), meta.name@);
            assert forall|i: int| 0 <= i < before.len() implies (#[trigger] before[i]).name@
                != meta.name@ by {
                assert(named_types(before)[i].0 != meta.name@);
            }
        }
        let mut taken = Registry { types: Vec::new() };
        core::mem::swap(self, &mut taken);
        let mut list = taken.types;
        list.push(meta);
        let mut built = Registry { types: list };
        core::mem::swap(self, &mut built);
        Ok(())
    }
}

/// What building a type into a registry came to.
#[derive(Debug, PartialEq)]
pub enum Built<S: ScalarValue> {
    /// The type has no name, or the registry held a descriptor under its
    /// name already: the registry stays as it was.
    Kept,
    /// The type's descriptor was registered.
    Added,
    /// The type's descriptor claims a name that is taken: it is rejected and
    /// handed back, and the registry stays as it was.
    Rejected(MetaType<S>),
}

/// What building a type of the given name and descriptor into a registry
/// comes to, and the descriptors that the registry then holds.
pub open spec fn built<S: ScalarValue>(
    before: Seq<MetaType<S>>,
    name: Option<String>,
    described: MetaType<S>,
    outcome: Built<S>,
    after: Seq<MetaType<S>>,
) -> bool {
    match name {
        None => outcome == Built::<S>::Kept && after == before,
        Some(n) => if has_key(named_types(before), n@) {
            outcome == Built::<S>::Kept && after == before
        } else if has_key(named_types(before), described.name@) {
            outcome == Built::Rejected(described) && after == before
        } else {
            outcome == Built::<S>::Added && after == before.push(described)
        },
    }
}

impl<S: ScalarValue> Registry<S> {
    /// Builds a type into the registry: its descriptor is asked for and
    /// registered, unless the type has no name or a descriptor is held under
    /// its name already, so that a type is described once.
    pub fn get_type<T: GraphQLType<S>>(&mut self, info: &T::TypeInfo) -> (r: Built<S>)
        ensures
            exists|name: Option<String>, described: MetaType<S>|
                #![trigger built(old(self).types(), name, described, r, final(self).types())]
                call_ensures(T::name, (info,), name) && (name is Some && !has_key(
                    named_types(old(self).types()),
                    name.unwrap()@,
                ) ==> call_ensures(T::meta, (info,), described)) && built(
                    old(self).types(),
                    name,
                    described,
                    r,
                    final(self).types(),
                ),
    {
        let ghost before = self.types();
        let name = T::name(info);
        match &name {
            None => {
                let ghost any: MetaType<S> = arbitrary();
                assert(built(before, name, any, Built::<S>::Kept, self.types()));
                Built::Kept
            },
            Some(n) => {
                if self.concrete_type_by_name(n.as_str()).is_some() {
                    let ghost any: MetaType<S> = arbitrary();
                    assert(built(before, name, any, Built::<S>::Kept, self.types()));
                    Built::Kept
                } else {
                    let described = T::meta(info);
                    let ghost d = described;
                    match self.register(described) {
                        Ok(()) => {
                            assert(built(before, name, d, Built::<S>::Added, self.types()));
                            Built::Added
                        },
                        Err(back) => {
                            assert(built(before, name, d, Built::Rejected(back), self.types()));
                            Built::Rejected(back)
                        },
                    }
                }
            },
        }
    }
}

/// The arguments of a field as its resolver sees them.
#[derive(Debug, PartialEq)]
pub struct Arguments<S: ScalarValue> {
    pub args: Vec<(String, InputValue<S>)>,
}

/// The written arguments with every variable resolved, a name that is
/// written twice keeping its first place and its last value.
pub open spec fn resolved_arguments(
    written: Seq<(Seq<char>, InputTree)>,
    vars: Seq<(Seq<char>, InputTree)>,
) -> Seq<(Seq<char>, InputTree)>
    decreases written.len(),
{
    if written.len() == 0 {
        Seq::empty()
    } else {
        put(
            resolved_arguments(written.drop_last(), vars),
            written.last().0,
            substitute(written.last().1, vars),
        )
    }
}

/// The name and the default of each declared argument.
pub open spec fn declared_defaults<S: ScalarValue>(declared: Seq<Argument<S>>) -> Seq<
    (Seq<char>, Option<InputTree>),
> {
    Seq::new(
        declared.len(),
        |i: int|
            (
                declared[i].name@,
                match declared[i].default_value {
                    Some(d) => Some(d@),
                    None => None,
                },
            ),
    )
}

/// Whether the arguments lack a value under `name`: none is given, or null.
pub open spec fn lacks(args: Seq<(Seq<char>, InputTree)>, name: Seq<char>) -> bool {
    !has_key(args, name) || lookup(args, name) == Some(InputTree::Null)
}

/// The arguments after the defaults of the declared arguments have been
/// filled in, in declaration order, wherever a value is lacking.
pub open spec fn with_defaults(
    args: Seq<(Seq<char>, InputTree)>,
    declared: Seq<(Seq<char>, Option<InputTree>)>,
) -> Seq<(Seq<char>, InputTree)>
    decreases declared.len(),
{
    if declared.len() == 0 {
        args
    } else {
        let before = with_defaults(args, declared.drop_last());
        match declared.last().1 {
            Some(d) => if lacks(before, declared.last().0) {
                put(before, declared.last().0, d)
            } else {
                before
            },
            None => before,
        }
    }
}

fn put_named<S: ScalarValue>(args: &mut Vec<(String, InputValue<S>)>, name: &str, value: InputValue<S>)
    ensures
        named_inputs(final(args)@) == put(named_inputs(old(args)@), name@, value@),
{
    let ghost before = named_inputs(args@);
    let at = find_named(args, name);
    args.push((name.to_owned(), value));
    if at < args.len() - 1 {
        let _ = args.swap_remove(at);
    }
    assert(named_inputs(args@) =~= put(before, name@, value@));
}

impl<S: ScalarValue> Arguments<S> {
    /// The arguments of a field: what the query wrote, with variables
    /// resolved, and the declared defaults where a value is lacking.
    pub fn new(
        written: &Vec<(String, InputValue<S>)>,
        vars: &Vec<(String, InputValue<S>)>,
        declared: &Vec<Argument<S>>,
    ) -> (r: Self)
        ensures
            named_inputs(r.args@) == with_defaults(
                resolved_arguments(named_inputs(written@), named_inputs(vars@)),
                declared_defaults(declared@),
            ),
    {
        let ghost w = named_inputs(written@);
        let ghost v = named_inputs(vars@);
        let ghost d = declared_defaults(declared@);
        let mut args: Vec<(String, InputValue<S>)> = Vec::new();
        let mut i: usize = 0;
        assert(w.take(0) =~= Seq::empty());
        assert(named_inputs(args@) =~= resolved_arguments(w.take(0), v));
        while i < written.len()
            invariant
                i <= written.len(),
                w == named_inputs(written@),
                v == named_inputs(vars@),
                named_inputs(args@) == resolved_arguments(w.take(i as int), v),
            decreases written.len() - i,
        {
            let pair = &written[i];
            put_named(&mut args, pair.0.as_str(), pair.1.into_const(vars));
            proof {
                assert(w.take(i + 1).drop_last() =~= w.take(i as int));
                assert(w.take(i + 1).last() == (pair.0@, pair.1@));
            }
            i += 1;
        }
        assert(w.take(i as int) =~= w);
        let ghost resolved = named_inputs(args@);
        let mut k: usize = 0;
        assert(d.take(0) =~= Seq::empty());
        while k < declared.len()
            invariant
                k <= declared.len(),
                d == declared_defaults(declared@),
                named_inputs(args@) == with_defaults(resolved, d.take(k as int)),
            decreases declared.len() - k,
        {
            let argument = &declared[k];
            proof {
                assert(d.take(k + 1).drop_last() =~= d.take(k as int));
                assert(d.take(k + 1).last() == d[k as int]);
            }
            match &argument.default_value {
                Some(default) => {
                    let at = find_named(&args, argument.name.as_str());
                    let lacking = if at < args.len() {
                        match &args[at].1 {
                            InputValue::Null => true,
                            _ => false,
                        }
                    } else {
                        false
                    };
                    if at >= args.len() || lacking {
                        put_named(&mut args, argument.name.as_str(), default.duplicate());
                    }
                },
                None => {},
            }
            k += 1;
        }
        assert(d.take(k as int) =~= d);
        Arguments { args }
    }

    /// The value of the argument called `name`, where there is one.
    pub fn get(&self, name: &str) -> (r: Option<&InputValue<S>>)
        ensures
            r is Some <==> has_key(named_inputs(self.args@), name@),
            r is Some ==> lookup(named_inputs(self.args@), name@) == Some(r.unwrap()@),
    {
        let at = find_named(&self.args, name);
        if at < self.args.len() {
            Some(&self.args[at].1)
        } else {
            None
        }
    }
}

} // verus!
