//! What the generation of a union's capability code decides ahead of the
//! generation itself: the attribute's name, whether the declared variants
//! are acceptable, and whether a trait method can resolve a variant. The
//! methods are read in the shape that these decisions look at.

use vstd::prelude::*;
use crate::scalar::same_text;

verus! {

/// For whom capability code is generated: for users of the library, or for
/// the library itself.
#[derive(Clone, Copy, Debug, PartialEq, Eq, Structural)]
pub enum Mode {
    Public,
    Internal,
}

/// The name of the attribute that derives a union's capabilities.
pub fn attr_path(mode: Mode) -> (r: &'static str)
    ensures
        r@ == (match mode {
            Mode::Public => "graphql_union"@,
            Mode::Internal => "graphql_union_internal"@,
        }),
{
    match mode {
        Mode::Public => "graphql_union",
        Mode::Internal => "graphql_union_internal",
    }
}

/// Whether no variant type directly follows a variant of the same type.
pub open spec fn neighbours_differ(types: Seq<String>) -> bool {
    forall|i: int| 0 < i < types.len() ==> (#[trigger] types[i])@ != types[i - 1]@
}

/// Whether each union variant has a different type from the one declared
/// just before it.
pub fn all_variants_different(types: &Vec<String>) -> (r: bool)
    ensures
        r == neighbours_differ(types@),
{
    let mut i: usize = 1;
    while i < types.len()
        invariant
            1 <= i,
            forall|j: int| 0 < j < i && j < types.len() ==> (#[trigger] types@[j])@ != types@[j - 1]@,
        decreases types.len() - i,
    {
        if same_text(types[i].as_str(), types[i - 1].as_str()) {
            return false;
        }
        i += 1;
    }
    true
}

/// The shape of a type as written.
#[derive(Debug, PartialEq)]
pub enum TypeShape {
    /// A type between parentheses.
    Paren(Box<TypeShape>),
    /// A reference to a type, shared or mutable.
    Reference { mutable: bool, elem: Box<TypeShape> },
    /// A path: whether it is qualified by a self type, the name of its last
    /// segment, and the generic arguments that the last segment has between
    /// angle brackets, where it has any.
    Path { qualified: bool, last: String, arguments: Option<Vec<GenericArgument>> },
    /// Any other type.
    Other,
}

/// A generic argument of a path segment.
#[derive(Debug, PartialEq)]
pub enum GenericArgument {
    Type(TypeShape),
    Other,
}

/// How a method takes `self`.
#[derive(Clone, Copy, Debug, PartialEq, Eq, Structural)]
pub enum Receiver {
    Missing,
    ByValue,
    Shared,
    Mutable,
}

/// The shape of a trait method's signature: its receiver, the number of its
/// inputs with the receiver, the type of its second input where that is a
/// typed argument, and its return type where it has one.
#[derive(Debug, PartialEq)]
pub struct MethodShape {
    pub receiver: Receiver,
    pub inputs: usize,
    pub second: Option<TypeShape>,
    pub output: Option<TypeShape>,
}

/// The part of a signature that a rejection points at.
#[derive(Clone, Copy, Debug, PartialEq, Eq, Structural)]
pub enum Culprit {
    Signature,
    Receiver,
    Inputs,
    SecondInput,
    ReturnType,
    VariantType,
}

/// A type without the parentheses around it.
pub open spec fn bare(ty: TypeShape) -> TypeShape
    decreases ty,
{
    match ty {
        TypeShape::Paren(inner) => bare(*inner),
        _ => ty,
    }
}

/// A type without the parentheses around it.
pub fn unparenthesize(ty: &TypeShape) -> (r: &TypeShape)
    ensures
        *r == bare(*ty),
    decreases ty,
{
    match ty {
        TypeShape::Paren(inner) => unparenthesize(inner),
        _ => ty,
    }
}

/// Whether a method's inputs let it resolve a variant, and whether it takes
/// the context: it has to take `self` by shared reference, and may take one
/// more input, a shared reference.
pub open spec fn input_args(method: MethodShape) -> Result<bool, Culprit> {
    match method.receiver {
        Receiver::Missing => Err(Culprit::Signature),
        Receiver::ByValue => Err(Culprit::Receiver),
        Receiver::Mutable => Err(Culprit::Receiver),
        Receiver::Shared => if method.inputs > 2 {
            Err(Culprit::Inputs)
        } else if method.inputs < 2 {
            Ok(false)
        } else {
            match method.second {
                None => Err(Culprit::Inputs),
                Some(ty) => match bare(ty) {
                    TypeShape::Reference { mutable, .. } => if mutable {
                        Err(Culprit::SecondInput)
                    } else {
                        Ok(true)
                    },
                    _ => Err(Culprit::SecondInput),
                },
            }
        },
    }
}

/// Reads a method's inputs: whether the method takes the context, or the
/// part of the signature that keeps it from resolving a variant.
pub fn parse_trait_method_input_args(method: &MethodShape) -> (r: Result<bool, Culprit>)
    ensures
        r == input_args(*method),
{
    match method.receiver {
        Receiver::Missing => {
            return Err(Culprit::Signature);
        },
        Receiver::ByValue => {
            return Err(Culprit::Receiver);
        },
        Receiver::Mutable => {
            return Err(Culprit::Receiver);
        },
        Receiver::Shared => {},
    }
    if method.inputs > 2 {
        return Err(Culprit::Inputs);
    }
    if method.inputs < 2 {
        return Ok(false);
    }
    let second = match &method.second {
        Some(ty) => ty,
        None => {
            return Err(Culprit::Inputs);
        },
    };
    match unparenthesize(second) {
        TypeShape::Reference { mutable, .. } => {
            if *mutable {
                Err(Culprit::SecondInput)
            } else {
                Ok(true)
            }
        },
        _ => Err(Culprit::SecondInput),
    }
}

/// The type of the variant that a method resolves, read from its return
/// type: the return type has to be `Option` of a shared reference, and the
/// variant's type is what the reference points to.
pub open spec fn output_type(method: MethodShape) -> Result<TypeShape, Culprit> {
    match method.output {
        None => Err(Culprit::Signature),
        Some(ty) => match bare(ty) {
            TypeShape::Path { qualified, last, arguments } => if qualified || last@ != "Option"@ {
                Err(Culprit::ReturnType)
            } else {
                match arguments {
                    Some(args) => if args.len() != 1 {
                        Err(Culprit::ReturnType)
                    } else {
                        match args[0] {
                            GenericArgument::Type(inner) => match bare(inner) {
                                TypeShape::Reference { mutable, elem } => if mutable {
                                    Err(Culprit::VariantType)
                                } else {
                                    Ok(bare(*elem))
                                },
                                _ => Err(Culprit::ReturnType),
                            },
                            GenericArgument::Other => Err(Culprit::ReturnType),
                        }
                    },
                    None => Err(Culprit::ReturnType),
                }
            },
            _ => Err(Culprit::ReturnType),
        },
    }
}

/// Reads the type of the variant that a method resolves from its return
/// type, or the part of the signature that keeps it from resolving one.
pub fn parse_trait_method_output_type(method: &MethodShape) -> (r: Result<&TypeShape, Culprit>)
    ensures
        r is Ok <==> output_type(*method) is Ok,
        r is Ok ==> output_type(*method) == Ok::<TypeShape, Culprit>(*r->Ok_0),
        r is Err ==> output_type(*method) == Err::<TypeShape, Culprit>(r->Err_0),
{
    let ret_ty = match &method.output {
        Some(ty) => ty,
        None => {
            return Err(Culprit::Signature);
        },
    };
    match unparenthesize(ret_ty) {
        TypeShape::Path { qualified, last, arguments } => {
            if *qualified || !same_text(last.as_str(), "Option") {
                return Err(Culprit::ReturnType);
            }
            let args = match arguments {
                Some(args) => args,
                None => {
                    return Err(Culprit::ReturnType);
                },
            };
            if args.len() != 1 {
                return Err(Culprit::ReturnType);
            }
            match &args[0] {
                GenericArgument::Type(inner) => match unparenthesize(inner) {
                    TypeShape::Reference { mutable, elem } => {
                        if *mutable {
                            Err(Culprit::VariantType)
                        } else {
                            Ok(unparenthesize(elem))
                        }
                    },
                    _ => Err(Culprit::ReturnType),
                },
                GenericArgument::Other => Err(Culprit::ReturnType),
            }
        },
        _ => Err(Culprit::ReturnType),
    }
}

} // verus!
