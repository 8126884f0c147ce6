use ir_emit::block::{BlockBuilder, Jump};
use ir_emit::inst::{arity, class, is_scalar, Instruction, OpClass, Opcode, ReprMismatchError, Slot};
use ir_emit::layout::Repr;
use ir_emit::name::{Name, NameKind, SymbolTable};
use ir_emit::value::Value;

fn local(table: &mut SymbolTable, text: &str, repr: Repr) -> Value {
    Value::Temporary(table.intern(NameKind::Local, text), repr)
}

fn mismatch(op: Opcode, slot: Slot) -> Option<ReprMismatchError> {
    Some(ReprMismatchError { opcode: op, slot })
}

#[test]
fn value_repr_and_name() {
    let n = Name { kind: NameKind::Local, id: 3 };
    let g = Name { kind: NameKind::Global, id: 4 };
    assert_eq!(Value::Constant(5, Repr::Int(16)).repr(), Repr::Int(16));
    assert_eq!(Value::Temporary(n, Repr::Float(64)).repr(), Repr::Float(64));
    assert_eq!(Value::GlobalRef(g).repr(), Repr::Pointer);
    assert_eq!(Value::Constant(5, Repr::Int(16)).name(), None);
    assert_eq!(Value::Temporary(n, Repr::Float(64)).name(), Some(n));
    assert_eq!(Value::GlobalRef(g).name(), Some(g));
}

#[test]
fn opcode_classes_and_arities() {
    assert_eq!(class(Opcode::Add), OpClass::Arithmetic);
    assert_eq!(class(Opcode::Shr), OpClass::Arithmetic);
    assert_eq!(class(Opcode::Ceq), OpClass::Comparison);
    assert_eq!(class(Opcode::Cge), OpClass::Comparison);
    assert_eq!(class(Opcode::Load), OpClass::Load);
    assert_eq!(class(Opcode::Store), OpClass::Store);
    assert_eq!(class(Opcode::Sext), OpClass::Extension);
    assert_eq!(class(Opcode::Zext), OpClass::Extension);
    assert_eq!(class(Opcode::Copy), OpClass::Copy);
    assert_eq!(arity(Opcode::Mul), 2);
    assert_eq!(arity(Opcode::Clt), 2);
    assert_eq!(arity(Opcode::Store), 2);
    assert_eq!(arity(Opcode::Load), 1);
    assert_eq!(arity(Opcode::Zext), 1);
    assert_eq!(arity(Opcode::Copy), 1);
}

#[test]
fn scalars() {
    assert!(is_scalar(Repr::Int(8)));
    assert!(is_scalar(Repr::Float(32)));
    assert!(is_scalar(Repr::Pointer));
    assert!(!is_scalar(Repr::Int(9)));
    assert!(!is_scalar(Repr::Aggregate { size: 8, align: 8 }));
}

#[test]
fn arithmetic_takes_two_operands_of_one_repr() {
    let mut t = SymbolTable::new();
    let a = local(&mut t, "a", Repr::Int(32));
    let b = local(&mut t, "b", Repr::Int(32));
    let d = local(&mut t, "d", Repr::Int(32));
    let inst = Instruction::new(Opcode::Add, vec![a, b], Some(d)).unwrap();
    assert_eq!(inst.op(), Opcode::Add);
    assert_eq!(inst.operands(), &vec![a, b]);
    assert_eq!(inst.dest(), Some(d));
}

#[test]
fn arithmetic_mismatches() {
    let mut t = SymbolTable::new();
    let a = local(&mut t, "a", Repr::Int(32));
    let wide = local(&mut t, "w", Repr::Int(64));
    let d = local(&mut t, "d", Repr::Int(32));
    let agg = local(&mut t, "g", Repr::Aggregate { size: 8, align: 8 });
    let odd = local(&mut t, "o", Repr::Int(12));
    let op = Opcode::Sub;
    assert_eq!(Instruction::new(op, vec![a], Some(d)).err(), mismatch(op, Slot::Arity));
    assert_eq!(Instruction::new(op, vec![], Some(d)).err(), mismatch(op, Slot::Arity));
    assert_eq!(Instruction::new(op, vec![a, a, a], Some(d)).err(), mismatch(op, Slot::Arity));
    assert_eq!(Instruction::new(op, vec![agg, agg], Some(agg)).err(), mismatch(op, Slot::Operand(0)));
    assert_eq!(Instruction::new(op, vec![odd, odd], Some(odd)).err(), mismatch(op, Slot::Operand(0)));
    assert_eq!(Instruction::new(op, vec![a, wide], Some(d)).err(), mismatch(op, Slot::Operand(1)));
    assert_eq!(Instruction::new(op, vec![a, a], Some(wide)).err(), mismatch(op, Slot::Destination));
    assert_eq!(Instruction::new(op, vec![a, a], None).err(), mismatch(op, Slot::Destination));
    let constant = Value::Constant(1, Repr::Int(32));
    assert_eq!(
        Instruction::new(op, vec![a, a], Some(constant)).err(),
        mismatch(op, Slot::Destination)
    );
    assert_eq!(
        Instruction::new(op, vec![odd, wide], None).err(),
        mismatch(op, Slot::Operand(0))
    );
}

#[test]
fn comparison_yields_a_32_bit_integer() {
    let mut t = SymbolTable::new();
    let x = local(&mut t, "x", Repr::Float(64));
    let y = Value::Constant(0, Repr::Float(64));
    let flag = local(&mut t, "flag", Repr::Int(32));
    let same = local(&mut t, "same", Repr::Float(64));
    assert!(Instruction::new(Opcode::Clt, vec![x, y], Some(flag)).is_ok());
    assert_eq!(
        Instruction::new(Opcode::Clt, vec![x, y], Some(same)).err(),
        mismatch(Opcode::Clt, Slot::Destination)
    );
    assert_eq!(
        Instruction::new(Opcode::Clt, vec![x, flag], Some(flag)).err(),
        mismatch(Opcode::Clt, Slot::Operand(1))
    );
}

#[test]
fn load_and_store_want_a_pointer() {
    let mut t = SymbolTable::new();
    let p = local(&mut t, "p", Repr::Pointer);
    let v = local(&mut t, "v", Repr::Int(16));
    let g = Value::GlobalRef(t.intern(NameKind::Global, "g"));
    let agg = local(&mut t, "agg", Repr::Aggregate { size: 4, align: 4 });
    assert!(Instruction::new(Opcode::Load, vec![p], Some(v)).is_ok());
    assert!(Instruction::new(Opcode::Load, vec![g], Some(v)).is_ok());
    assert_eq!(
        Instruction::new(Opcode::Load, vec![v], Some(v)).err(),
        mismatch(Opcode::Load, Slot::Operand(0))
    );
    assert_eq!(
        Instruction::new(Opcode::Load, vec![p], Some(agg)).err(),
        mismatch(Opcode::Load, Slot::Destination)
    );
    assert_eq!(
        Instruction::new(Opcode::Load, vec![p], None).err(),
        mismatch(Opcode::Load, Slot::Destination)
    );
    assert!(Instruction::new(Opcode::Store, vec![v, p], None).is_ok());
    assert_eq!(
        Instruction::new(Opcode::Store, vec![v, v], None).err(),
        mismatch(Opcode::Store, Slot::Operand(1))
    );
    assert_eq!(
        Instruction::new(Opcode::Store, vec![agg, p], None).err(),
        mismatch(Opcode::Store, Slot::Operand(0))
    );
    assert_eq!(
        Instruction::new(Opcode::Store, vec![v, p], Some(v)).err(),
        mismatch(Opcode::Store, Slot::Destination)
    );
}

#[test]
fn extension_widens_integers() {
    let mut t = SymbolTable::new();
    let narrow = local(&mut t, "n", Repr::Int(8));
    let wide = local(&mut t, "w", Repr::Int(64));
    let float = local(&mut t, "f", Repr::Float(32));
    assert!(Instruction::new(Opcode::Sext, vec![narrow], Some(wide)).is_ok());
    assert!(Instruction::new(Opcode::Zext, vec![narrow], Some(wide)).is_ok());
    assert_eq!(
        Instruction::new(Opcode::Sext, vec![wide], Some(narrow)).err(),
        mismatch(Opcode::Sext, Slot::Destination)
    );
    assert_eq!(
        Instruction::new(Opcode::Sext, vec![narrow], Some(narrow)).err(),
        mismatch(Opcode::Sext, Slot::Destination)
    );
    assert_eq!(
        Instruction::new(Opcode::Zext, vec![float], Some(wide)).err(),
        mismatch(Opcode::Zext, Slot::Operand(0))
    );
    assert_eq!(
        Instruction::new(Opcode::Zext, vec![narrow], Some(float)).err(),
        mismatch(Opcode::Zext, Slot::Destination)
    );
}

#[test]
fn copy_keeps_the_repr() {
    let mut t = SymbolTable::new();
    let a = local(&mut t, "a", Repr::Pointer);
    let b = local(&mut t, "b", Repr::Pointer);
    let c = local(&mut t, "c", Repr::Int(64));
    assert!(Instruction::new(Opcode::Copy, vec![a], Some(b)).is_ok());
    assert_eq!(
        Instruction::new(Opcode::Copy, vec![a], Some(c)).err(),
        mismatch(Opcode::Copy, Slot::Destination)
    );
    assert_eq!(
        Instruction::new(Opcode::Copy, vec![a, b], Some(b)).err(),
        mismatch(Opcode::Copy, Slot::Arity)
    );
}

#[test]
fn jump_targets_and_operand() {
    let l = Name { kind: NameKind::Label, id: 0 };
    let m = Name { kind: NameKind::Label, id: 1 };
    let c = Value::Constant(1, Repr::Int(32));
    assert_eq!(Jump::Jmp(l).first_target(), Some(l));
    assert_eq!(Jump::Jmp(l).second_target(), None);
    assert_eq!(Jump::Jmp(l).operand(), None);
    assert_eq!(Jump::Jnz(c, l, m).first_target(), Some(l));
    assert_eq!(Jump::Jnz(c, l, m).second_target(), Some(m));
    assert_eq!(Jump::Jnz(c, l, m).operand(), Some(c));
    assert_eq!(Jump::Ret(Some(c)).operand(), Some(c));
    assert_eq!(Jump::Ret(Some(c)).first_target(), None);
    assert_eq!(Jump::Ret(None).operand(), None);
    assert_eq!(Jump::Hlt.first_target(), None);
    assert_eq!(Jump::Hlt.operand(), None);
}

#[test]
fn sealed_block_keeps_instructions_then_jump() {
    let mut t = SymbolTable::new();
    let label = t.intern(NameKind::Label, "start");
    let a = local(&mut t, "a", Repr::Int(32));
    let d = local(&mut t, "d", Repr::Int(32));
    let e = local(&mut t, "e", Repr::Int(32));
    let mut builder = BlockBuilder::new(label);
    builder.push(Instruction::new(Opcode::Add, vec![a, a], Some(d)).unwrap());
    builder.push(Instruction::new(Opcode::Mul, vec![d, a], Some(e)).unwrap());
    let block = builder.seal(Jump::Ret(Some(e)));
    assert_eq!(block.label(), label);
    assert_eq!(block.len(), 2);
    assert_eq!(block.inst(0).op(), Opcode::Add);
    assert_eq!(block.inst(1).op(), Opcode::Mul);
    assert_eq!(block.jump(), Jump::Ret(Some(e)));
}
