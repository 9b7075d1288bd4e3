use vstd::prelude::*;

use crate::frontend;

verus! {

/// The scalar machine types.
#[derive(Clone, Copy, PartialEq, Eq, Structural, Debug)]
pub enum ScalarType {
    /// An 8-bit integer; booleans are held in it.
    Char,
    /// A 64-bit integer.
    Int,
    /// A 64-bit float.
    Float,
}

/// The types of backend values.
#[derive(Debug, PartialEq, Eq)]
pub enum Type {
    Void,
    Scalar(ScalarType),
    /// A pointer to elements of the inner type.
    Array(Box<Type>),
}

impl Type {
    pub fn as_scalar(&self) -> (r: Option<&ScalarType>)
        ensures
            match *self {
                Type::Scalar(s) => r == Some(&s),
                _ => r is None,
            },
    {
        if let Type::Scalar(scalar) = self {
            Some(scalar)
        } else {
            None
        }
    }

    /// Whether the two types are the same.
    pub fn same(&self, other: &Type) -> (r: bool)
        ensures
            r == (*self == *other),
        decreases self,
    {
        match (self, other) {
            (Type::Void, Type::Void) => true,
            (Type::Scalar(a), Type::Scalar(b)) => *a == *b,
            (Type::Array(a), Type::Array(b)) => a.same(b),
            _ => false,
        }
    }

    /// A copy of the type.
    pub fn duplicate(&self) -> (r: Type)
        ensures
            r == *self,
        decreases self,
    {
        match self {
            Type::Void => Type::Void,
            Type::Scalar(s) => Type::Scalar(*s),
            Type::Array(inner) => Type::Array(Box::new(inner.duplicate())),
        }
    }
}

/// The backend type that holds values of a source type: integers and the generic numeric
/// type in 64 bits, booleans in 8, strings as pointers to characters.
pub open spec fn backend_type_of(t: frontend::Type) -> Type {
    match t {
        frontend::Type::Int => Type::Scalar(ScalarType::Int),
        frontend::Type::Number => Type::Scalar(ScalarType::Int),
        frontend::Type::Float => Type::Scalar(ScalarType::Float),
        frontend::Type::Bool => Type::Scalar(ScalarType::Char),
        frontend::Type::String => Type::Array(Box::new(Type::Scalar(ScalarType::Char))),
        frontend::Type::Void => Type::Void,
    }
}

pub fn backend_type(t: frontend::Type) -> (r: Type)
    ensures
        r == backend_type_of(t),
{
    match t {
        frontend::Type::Int => Type::Scalar(ScalarType::Int),
        frontend::Type::Number => Type::Scalar(ScalarType::Int),
        frontend::Type::Float => Type::Scalar(ScalarType::Float),
        frontend::Type::Bool => Type::Scalar(ScalarType::Char),
        frontend::Type::String => Type::Array(Box::new(Type::Scalar(ScalarType::Char))),
        frontend::Type::Void => Type::Void,
    }
}

/// A backend function signature: name, parameter types in order, return type.
#[derive(Debug)]
pub struct FunctionSig {
    pub name: String,
    pub args: Vec<Type>,
    pub return_type: Type,
}

/// A virtual variable: a typed, mutable storage location of a lowered function.
#[derive(Debug)]
pub struct Declaration {
    pub ident: String,
    pub type_sig: Type,
}

} // verus!
