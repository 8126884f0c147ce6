//! Operands: constants, temporaries and references to globals.
use vstd::prelude::*;
use crate::layout::Repr;
use crate::name::Name;

verus! {

/// An operand of an instruction or of a jump.
#[derive(Clone, Copy, Debug, PartialEq, Eq, Structural, Hash)]
pub enum Value {
    /// A literal, read as the given representation. A floating-point
    /// constant holds the bit pattern of the number.
    Constant(i64, Repr),
    /// The temporary of the given name. Its representation is that of its
    /// single definition.
    Temporary(Name, Repr),
    /// The address of a global.
    GlobalRef(Name),
}

impl Value {
    /// The representation of this value. The address of a global is a
    /// pointer.
    pub open spec fn spec_repr(self) -> Repr {
        match self {
            Value::Constant(_, r) => r,
            Value::Temporary(_, r) => r,
            Value::GlobalRef(_) => Repr::Pointer,
        }
    }

    /// The name this value refers to, if it refers to one.
    pub open spec fn spec_name(self) -> Option<Name> {
        match self {
            Value::Constant(_, _) => None,
            Value::Temporary(n, _) => Some(n),
            Value::GlobalRef(n) => Some(n),
        }
    }

    /// The representation of this value.
    #[verifier::when_used_as_spec(spec_repr)]
    pub fn repr(self) -> (r: Repr)
        ensures
            r == self.spec_repr(),
    {
        match self {
            Value::Constant(_, r) => r,
            Value::Temporary(_, r) => r,
            Value::GlobalRef(_) => Repr::Pointer,
        }
    }

    /// The name this value refers to, if it refers to one.
    #[verifier::when_used_as_spec(spec_name)]
    pub fn name(self) -> (n: Option<Name>)
        ensures
            n == self.spec_name(),
    {
        match self {
            Value::Constant(_, _) => None,
            Value::Temporary(n, _) => Some(n),
            Value::GlobalRef(n) => Some(n),
        }
    }
}

} // verus!
