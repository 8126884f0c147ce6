//! Instructions and the operand signature of every opcode.
//!
//! The signature table is fixed:
//!
//! | opcodes | operands | destination |
//! |---|---|---|
//! | `Add Sub Mul Div Rem And Or Xor Shl Shr` | two scalars of one representation | a temporary of that representation |
//! | `Ceq Cne Clt Cle Cgt Cge` | two scalars of one representation | a temporary that is a 32-bit integer |
//! | `Load` | a pointer | a scalar temporary |
//! | `Store` | a scalar, then a pointer | none |
//! | `Sext Zext` | an integer | a temporary that is a wider integer |
//! | `Copy` | a scalar | a temporary of that representation |
use vstd::prelude::*;
use crate::layout::{layout_of, scalar, well_formed, Repr};
use crate::value::Value;

verus! {

/// The operation an instruction performs.
#[derive(Clone, Copy, Debug, PartialEq, Eq, Structural, Hash)]
pub enum Opcode {
    Add,
    Sub,
    Mul,
    Div,
    Rem,
    And,
    Or,
    Xor,
    Shl,
    Shr,
    Ceq,
    Cne,
    Clt,
    Cle,
    Cgt,
    Cge,
    Load,
    Store,
    Sext,
    Zext,
    Copy,
}

/// The row of the signature table an opcode belongs to.
#[derive(Clone, Copy, Debug, PartialEq, Eq, Structural, Hash)]
pub enum OpClass {
    Arithmetic,
    Comparison,
    Load,
    Store,
    Extension,
    Copy,
}

/// The part of an instruction that breaks the opcode's signature.
#[derive(Clone, Copy, Debug, PartialEq, Eq, Structural, Hash)]
pub enum Slot {
    /// The number of operands.
    Arity,
    /// The operand at this position.
    Operand(usize),
    /// The destination, present or absent.
    Destination,
}

/// An instruction whose operands or destination do not fit its opcode.
#[derive(Clone, Copy, Debug, PartialEq, Eq, Structural, Hash)]
pub struct ReprMismatchError {
    pub opcode: Opcode,
    /// The first slot that does not fit, counting the arity first, then the
    /// operands in order, then the destination.
    pub slot: Slot,
}

/// The row of the signature table that `op` belongs to.
pub open spec fn spec_class(op: Opcode) -> OpClass {
    match op {
        Opcode::Add | Opcode::Sub | Opcode::Mul | Opcode::Div | Opcode::Rem | Opcode::And
        | Opcode::Or | Opcode::Xor | Opcode::Shl | Opcode::Shr => OpClass::Arithmetic,
        Opcode::Ceq | Opcode::Cne | Opcode::Clt | Opcode::Cle | Opcode::Cgt | Opcode::Cge =>
            OpClass::Comparison,
        Opcode::Load => OpClass::Load,
        Opcode::Store => OpClass::Store,
        Opcode::Sext | Opcode::Zext => OpClass::Extension,
        Opcode::Copy => OpClass::Copy,
    }
}

/// The number of operands that `op` takes.
pub open spec fn spec_arity(op: Opcode) -> nat {
    match spec_class(op) {
        OpClass::Arithmetic | OpClass::Comparison | OpClass::Store => 2,
        OpClass::Load | OpClass::Extension | OpClass::Copy => 1,
    }
}

/// Whether the first operand fits `op`.
pub open spec fn first_operand_fits(op: Opcode, first: Repr) -> bool {
    match spec_class(op) {
        OpClass::Arithmetic | OpClass::Comparison | OpClass::Store | OpClass::Copy => scalar(
            first,
        ),
        OpClass::Load => first == Repr::Pointer,
        OpClass::Extension => first is Int && well_formed(first),
    }
}

/// Whether the second operand fits `op`, given a first operand that fits.
pub open spec fn second_operand_fits(op: Opcode, first: Repr, second: Repr) -> bool {
    match spec_class(op) {
        OpClass::Arithmetic | OpClass::Comparison => second == first,
        OpClass::Store => second == Repr::Pointer,
        OpClass::Load | OpClass::Extension | OpClass::Copy => true,
    }
}

/// Whether the destination fits `op`, given operands that fit.
pub open spec fn destination_fits(op: Opcode, first: Repr, dest: Option<Value>) -> bool {
    match spec_class(op) {
        OpClass::Store => dest is None,
        OpClass::Arithmetic | OpClass::Copy => dest matches Some(Value::Temporary(_, r)) && r
            == first,
        OpClass::Comparison => dest matches Some(Value::Temporary(_, r)) && r == Repr::Int(32),
        OpClass::Load => dest matches Some(Value::Temporary(_, r)) && scalar(r),
        OpClass::Extension => dest matches Some(Value::Temporary(_, r)) && well_formed(r) && (
        match (first, r) {
            (Repr::Int(from), Repr::Int(to)) => from < to,
            _ => false,
        }),
    }
}

/// The first slot in which (operands, dest) breaks the signature of `op`.
pub open spec fn signature_violation(op: Opcode, operands: Seq<Value>, dest: Option<Value>)
    -> Option<Slot> {
    if operands.len() != spec_arity(op) {
        Some(Slot::Arity)
    } else if !first_operand_fits(op, operands[0].spec_repr()) {
        Some(Slot::Operand(0))
    } else if spec_arity(op) == 2 && !second_operand_fits(
        op,
        operands[0].spec_repr(),
        operands[1].spec_repr(),
    ) {
        Some(Slot::Operand(1))
    } else if !destination_fits(op, operands[0].spec_repr(), dest) {
        Some(Slot::Destination)
    } else {
        None
    }
}

/// One operation of a block body.
#[derive(Debug)]
pub struct Instruction {
    op: Opcode,
    operands: Vec<Value>,
    dest: Option<Value>,
}

/// What an instruction is, as plain data.
pub struct InstructionView {
    pub op: Opcode,
    pub operands: Seq<Value>,
    pub dest: Option<Value>,
}

impl View for Instruction {
    type V = InstructionView;

    closed spec fn view(&self) -> InstructionView {
        InstructionView { op: self.op, operands: self.operands@, dest: self.dest }
    }
}

impl InstructionView {
    /// The temporary this instruction defines, if it defines one.
    pub open spec fn defines(self) -> Option<Value> {
        match self.dest {
            Some(Value::Temporary(n, r)) => Some(Value::Temporary(n, r)),
            _ => None,
        }
    }

    /// Whether the instruction fits the signature of its opcode.
    pub open spec fn well_typed(self) -> bool {
        signature_violation(self.op, self.operands, self.dest) is None
    }
}

/// The row of the signature table that `op` belongs to.
pub fn class(op: Opcode) -> (c: OpClass)
    ensures
        c == spec_class(op),
{
    match op {
        Opcode::Add | Opcode::Sub | Opcode::Mul | Opcode::Div | Opcode::Rem | Opcode::And
        | Opcode::Or | Opcode::Xor | Opcode::Shl | Opcode::Shr => OpClass::Arithmetic,
        Opcode::Ceq | Opcode::Cne | Opcode::Clt | Opcode::Cle | Opcode::Cgt | Opcode::Cge =>
            OpClass::Comparison,
        Opcode::Load => OpClass::Load,
        Opcode::Store => OpClass::Store,
        Opcode::Sext | Opcode::Zext => OpClass::Extension,
        Opcode::Copy => OpClass::Copy,
    }
}

/// The number of operands that `op` takes.
pub fn arity(op: Opcode) -> (n: usize)
    ensures
        n == spec_arity(op),
{
    match class(op) {
        OpClass::Arithmetic | OpClass::Comparison | OpClass::Store => 2,
        OpClass::Load | OpClass::Extension | OpClass::Copy => 1,
    }
}

/// Whether `r` is a well-formed integer, floating-point or pointer
/// representation.
pub fn is_scalar(r: Repr) -> (b: bool)
    ensures
        b == scalar(r),
{
    match r {
        Repr::Aggregate { .. } => false,
        _ => layout_of(r).is_ok(),
    }
}

fn check_first(op: Opcode, first: Repr) -> (b: bool)
    ensures
        b == first_operand_fits(op, first),
{
    match class(op) {
        OpClass::Arithmetic | OpClass::Comparison | OpClass::Store | OpClass::Copy => is_scalar(
            first,
        ),
        OpClass::Load => first == Repr::Pointer,
        OpClass::Extension => match first {
            Repr::Int(_) => layout_of(first).is_ok(),
            _ => false,
        },
    }
}

fn check_second(op: Opcode, first: Repr, second: Repr) -> (b: bool)
    ensures
        b == second_operand_fits(op, first, second),
{
    match class(op) {
        OpClass::Arithmetic | OpClass::Comparison => second == first,
        OpClass::Store => second == Repr::Pointer,
        OpClass::Load | OpClass::Extension | OpClass::Copy => true,
    }
}

fn check_destination(op: Opcode, first: Repr, dest: Option<Value>) -> (b: bool)
    ensures
        b == destination_fits(op, first, dest),
{
    match class(op) {
        OpClass::Store => dest.is_none(),
        OpClass::Arithmetic | OpClass::Copy => match dest {
            Some(Value::Temporary(_, r)) => r == first,
            _ => false,
        },
        OpClass::Comparison => match dest {
            Some(Value::Temporary(_, r)) => r == Repr::Int(32),
            _ => false,
        },
        OpClass::Load => match dest {
            Some(Value::Temporary(_, r)) => is_scalar(r),
            _ => false,
        },
        OpClass::Extension => match dest {
            Some(Value::Temporary(_, r)) => layout_of(r).is_ok() && match (first, r) {
                (Repr::Int(from), Repr::Int(to)) => from < to,
                _ => false,
            },
            _ => false,
        },
    }
}

impl Instruction {
    /// An instruction, provided that operands and destination fit the
    /// signature of `op`; else the first slot that does not fit.
    pub fn new(op: Opcode, operands: Vec<Value>, dest: Option<Value>) -> (r: Result<
        Instruction,
        ReprMismatchError,
    >)
        ensures
            match signature_violation(op, operands@, dest) {
                Some(slot) => r == Err::<Instruction, ReprMismatchError>(
                    ReprMismatchError { opcode: op, slot },
                ),
                None => r is Ok && r->Ok_0@ == (InstructionView { op, operands: operands@, dest })
                    && r->Ok_0@.well_typed(),
            },
    {
        let n = arity(op);
        if operands.len() != n {
            return Err(ReprMismatchError { opcode: op, slot: Slot::Arity });
        }
        let first = operands[0].repr();
        if !check_first(op, first) {
            return Err(ReprMismatchError { opcode: op, slot: Slot::Operand(0) });
        }
        if n == 2 && !check_second(op, first, operands[1].repr()) {
            return Err(ReprMismatchError { opcode: op, slot: Slot::Operand(1) });
        }
        if !check_destination(op, first, dest) {
            return Err(ReprMismatchError { opcode: op, slot: Slot::Destination });
        }
        Ok(Instruction { op, operands, dest })
    }

    /// The opcode.
    pub fn op(&self) -> (op: Opcode)
        ensures
            op == self@.op,
    {
        self.op
    }

    /// The operands, in order.
    pub fn operands(&self) -> (operands: &Vec<Value>)
        ensures
            operands@ == self@.operands,
    {
        &self.operands
    }

    /// The destination, if there is one.
    pub fn dest(&self) -> (dest: Option<Value>)
        ensures
            dest == self@.dest,
    {
        self.dest
    }
}

} // verus!
