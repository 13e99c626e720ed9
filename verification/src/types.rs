//! The language's type system: a single type, kept as an explicit
//! enumeration so that the semantic analyzer's equality check stays a
//! real gate for future types.

use vstd::prelude::*;

verus! {

/// A value type of the language.
#[derive(Debug, Clone, Copy, PartialEq, Eq, Structural)]
pub enum Type {
    Int,
}

/// The display name of a type.
pub open spec fn type_text(t: Type) -> Seq<char> {
    match t {
        Type::Int => "Int"@,
    }
}

impl Type {
    /// The type's name as displayed in diagnostics.
    pub fn as_str(&self) -> (r: &'static str)
        ensures
            r@ == type_text(*self),
    {
        match self {
            Type::Int => "Int",
        }
    }
}

} // verus!
