use ir_emit::block::{Block, BlockBuilder, Jump};
use ir_emit::data::{Declaration, Fragment, Linkage};
use ir_emit::emit::{
    declaration_is_known, declaration_is_laid_out, emit_data, emit_fragment, emit_func, emit_unit,
    function_is_known, function_is_laid_out, unit_is_finalized, unit_is_known, unit_is_laid_out,
    value_is_known, EmissionContractViolation, Unit,
};
use ir_emit::function::{Function, Param};
use ir_emit::inst::{Instruction, Opcode};
use ir_emit::layout::{has_layout, layout_of, Repr};
use ir_emit::name::{Name, NameKind, SymbolTable};
use ir_emit::render::{
    block_is_laid_out, emit_block, emit_inst, emit_jump, emit_name, emit_repr, emit_value,
    inst_is_laid_out, jump_is_laid_out, mnemonic, value_is_laid_out,
};
use ir_emit::text::{digit_text, push_decimal, push_signed};
use ir_emit::value::Value;

const W: Repr = Repr::Int(32);

fn temp(t: &mut SymbolTable, text: &str) -> Value {
    Value::Temporary(t.intern(NameKind::Local, text), W)
}

fn block(label: Name, insts: Vec<Instruction>, jump: Jump) -> Block {
    let mut b = BlockBuilder::new(label);
    for i in insts {
        b.push(i);
    }
    b.seal(jump)
}

fn add_function(t: &mut SymbolTable) -> Function {
    let a = temp(t, "a");
    let b = temp(t, "b");
    let t0 = temp(t, "t0");
    let start = t.intern(NameKind::Label, "start");
    let name = t.intern(NameKind::Global, "add");
    let params = vec![
        Param { name: a.name().unwrap(), repr: W },
        Param { name: b.name().unwrap(), repr: W },
    ];
    let mut f = Function::new(name, params, Some(W));
    let sum = Instruction::new(Opcode::Add, vec![a, b], Some(t0)).unwrap();
    assert!(f.append_block(block(start, vec![sum], Jump::Ret(Some(t0)))));
    f
}

fn counter(t: &mut SymbolTable) -> Declaration {
    let name = t.intern(NameKind::Global, "counter");
    let mut d = Declaration::new(name, Linkage::Internal, 8);
    d.push(Fragment::Zero(4));
    d.push(Fragment::Scalar(7, W));
    d
}

#[test]
fn add_function_emits_instruction_then_jump() {
    let mut t = SymbolTable::new();
    let mut f = add_function(&mut t);
    assert_eq!(f.finalize(), Ok(vec![]));
    let mut unit = Unit::new();
    unit.add_function(f);
    let text = emit_unit(&t, &unit).unwrap();
    assert_eq!(
        text,
        "function $add(w %a, w %b) -> w {\n@start\n    add w %a, w %b => w %t0\n    ret w %t0\n}\n"
    );
    let lines: Vec<&str> = text.lines().collect();
    assert_eq!(lines[2], "    add w %a, w %b => w %t0");
    assert_eq!(lines[3], "    ret w %t0");
}

#[test]
fn function_that_failed_finalization_emits_nothing() {
    let mut t = SymbolTable::new();
    let start = t.intern(NameKind::Label, "start");
    let missing = t.intern(NameKind::Label, "L");
    let name = t.intern(NameKind::Global, "f");
    let mut f = Function::new(name, vec![], None);
    assert!(f.append_block(block(start, vec![], Jump::Jmp(missing))));
    assert!(f.finalize().is_err());
    let mut unit = Unit::new();
    unit.add_declaration(counter(&mut t));
    unit.add_function(f);
    assert!(!unit_is_finalized(&unit));
    assert_eq!(emit_unit(&t, &unit), Err(EmissionContractViolation::UnfinalizedFunction));
}

#[test]
fn open_function_emits_nothing() {
    let mut t = SymbolTable::new();
    let f = add_function(&mut t);
    let mut good = add_function(&mut t);
    assert!(good.finalize().is_ok());
    let mut unit = Unit::new();
    unit.add_function(good);
    assert!(unit_is_finalized(&unit));
    unit.add_function(f);
    assert!(!unit_is_finalized(&unit));
    assert_eq!(emit_unit(&t, &unit), Err(EmissionContractViolation::UnfinalizedFunction));
}

#[test]
fn declaration_emits_its_fragments_in_order() {
    let mut t = SymbolTable::new();
    let d = counter(&mut t);
    assert_eq!(d.size(), Ok(8));
    let mut unit = Unit::new();
    unit.add_declaration(d);
    assert_eq!(emit_unit(&t, &unit), Ok(String::from("data $counter = align 8 { z 4, w 7 }\n")));
}

#[test]
fn data_comes_before_functions_each_in_the_order_added() {
    let mut t = SymbolTable::new();
    let mut f = add_function(&mut t);
    assert!(f.finalize().is_ok());
    let table_name = t.intern(NameKind::Global, "table");
    let counter_name = t.intern(NameKind::Global, "counter");
    let mut table = Declaration::new(table_name, Linkage::Export, 16);
    table.push(Fragment::SymbolRef(counter_name));
    table.push(Fragment::Scalar(-1, Repr::Int(64)));
    let empty = Declaration::new(t.intern(NameKind::Global, "empty"), Linkage::Internal, 1);
    let stop = t.intern(NameKind::Global, "stop");
    let only = t.intern(NameKind::Label, "only");
    let mut g = Function::new(stop, vec![], None);
    assert!(g.append_block(block(only, vec![], Jump::Hlt)));
    assert!(g.finalize().is_ok());

    let mut unit = Unit::new();
    unit.add_function(f);
    unit.add_declaration(table);
    unit.add_function(g);
    unit.add_declaration(counter(&mut t));
    unit.add_declaration(empty);
    assert_eq!(unit.declarations().len(), 3);
    assert_eq!(unit.functions().len(), 2);
    let expected = "export data $table = align 16 { p $counter, l -1 }\n\
                    data $counter = align 8 { z 4, w 7 }\n\
                    data $empty = align 1 { }\n\
                    function $add(w %a, w %b) -> w {\n\
                    @start\n\
                    \x20   add w %a, w %b => w %t0\n\
                    \x20   ret w %t0\n\
                    }\n\
                    function $stop() {\n\
                    @only\n\
                    \x20   hlt\n\
                    }\n";
    assert_eq!(emit_unit(&t, &unit).unwrap(), expected);
}

#[test]
fn empty_unit_emits_empty_text() {
    let t = SymbolTable::new();
    let unit = Unit::new();
    assert_eq!(emit_unit(&t, &unit), Ok(String::new()));
}

#[test]
fn emitting_twice_gives_identical_text() {
    let mut t = SymbolTable::new();
    let mut f = add_function(&mut t);
    assert!(f.finalize().is_ok());
    let mut unit = Unit::new();
    unit.add_declaration(counter(&mut t));
    unit.add_function(f);
    let first = emit_unit(&t, &unit).unwrap();
    let second = emit_unit(&t, &unit).unwrap();
    assert_eq!(first.as_bytes(), second.as_bytes());
    assert!(!first.is_empty());
}

#[test]
fn the_same_ir_built_twice_gives_identical_text() {
    let mut texts = Vec::new();
    for _ in 0..2 {
        let mut t = SymbolTable::new();
        let mut f = add_function(&mut t);
        assert!(f.finalize().is_ok());
        let mut unit = Unit::new();
        unit.add_function(f);
        unit.add_declaration(counter(&mut t));
        texts.push(emit_unit(&t, &unit).unwrap());
    }
    assert_eq!(texts[0].as_bytes(), texts[1].as_bytes());
}

#[test]
fn names_of_another_table_are_refused() {
    let mut t = SymbolTable::new();
    let mut f = add_function(&mut t);
    assert!(f.finalize().is_ok());
    let d = counter(&mut t);
    let other = SymbolTable::new();
    assert!(!function_is_known(&other, &f));
    assert!(function_is_known(&t, &f));
    assert!(!declaration_is_known(&other, &d));
    assert!(declaration_is_known(&t, &d));
    let mut unit = Unit::new();
    unit.add_function(f);
    assert!(unit_is_known(&t, &unit));
    assert!(!unit_is_known(&other, &unit));
    assert_eq!(emit_unit(&other, &unit), Err(EmissionContractViolation::ForeignName));
    let mut data_only = Unit::new();
    data_only.add_declaration(d);
    assert_eq!(emit_unit(&other, &data_only), Err(EmissionContractViolation::ForeignName));
}

#[test]
fn a_foreign_symbol_in_a_fragment_is_refused() {
    let mut t = SymbolTable::new();
    let name = t.intern(NameKind::Global, "d");
    let mut d = Declaration::new(name, Linkage::Internal, 8);
    d.push(Fragment::Zero(1));
    d.push(Fragment::SymbolRef(Name { kind: NameKind::Global, id: 7 }));
    assert!(!declaration_is_known(&t, &d));
    assert!(value_is_known(&t, Value::Constant(1, W)));
    assert!(value_is_known(&t, Value::GlobalRef(name)));
    assert!(!value_is_known(&t, Value::GlobalRef(Name { kind: NameKind::Label, id: 0 })));
}

#[test]
fn unfinalized_is_reported_before_foreign_names() {
    let mut t = SymbolTable::new();
    let f = add_function(&mut t);
    let other = SymbolTable::new();
    let mut unit = Unit::new();
    unit.add_function(f);
    assert_eq!(emit_unit(&other, &unit), Err(EmissionContractViolation::UnfinalizedFunction));
}

#[test]
fn names_carry_the_sigil_of_their_kind() {
    let mut t = SymbolTable::new();
    let g = t.intern(NameKind::Global, "g");
    let l = t.intern(NameKind::Local, "l");
    let b = t.intern(NameKind::Label, "b");
    let mut out = String::from(">");
    emit_name(&t, g, &mut out);
    emit_name(&t, l, &mut out);
    emit_name(&t, b, &mut out);
    assert_eq!(out, ">$g%l@b");
}

#[test]
fn reprs_have_one_text_each() {
    let mut out = String::new();
    for r in [
        Repr::Int(8),
        Repr::Int(16),
        Repr::Int(32),
        Repr::Int(64),
        Repr::Float(32),
        Repr::Float(64),
        Repr::Pointer,
        Repr::Aggregate { size: 24, align: 8 },
        Repr::Aggregate { size: 0, align: 0 },
    ] {
        assert!(has_layout(r));
        emit_repr(r, &mut out);
        out.push(' ');
    }
    assert_eq!(out, "b h w l s d p {24:8} {0:0} ");
}

#[test]
fn values_are_written_with_their_repr() {
    let mut t = SymbolTable::new();
    let x = temp(&mut t, "x");
    let g = Value::GlobalRef(t.intern(NameKind::Global, "g"));
    let mut out = String::new();
    emit_value(&t, x, &mut out);
    out.push('|');
    emit_value(&t, g, &mut out);
    out.push('|');
    emit_value(&t, Value::Constant(-42, Repr::Int(64)), &mut out);
    out.push('|');
    emit_value(&t, Value::Constant(0, Repr::Float(32)), &mut out);
    assert_eq!(out, "w %x|p $g|l -42|s 0");
}

#[test]
fn numbers_in_decimal() {
    let mut out = String::new();
    push_decimal(&mut out, 0);
    out.push(' ');
    push_decimal(&mut out, 9);
    out.push(' ');
    push_decimal(&mut out, 10);
    out.push(' ');
    push_decimal(&mut out, 1234567890);
    out.push(' ');
    push_decimal(&mut out, u64::MAX);
    out.push(' ');
    push_signed(&mut out, -1);
    out.push(' ');
    push_signed(&mut out, i64::MIN);
    out.push(' ');
    push_signed(&mut out, i64::MAX);
    out.push(' ');
    push_signed(&mut out, 0);
    assert_eq!(
        out,
        "0 9 10 1234567890 18446744073709551615 -1 -9223372036854775808 9223372036854775807 0"
    );
    let digits: Vec<&str> = (0..10).map(digit_text).collect();
    assert_eq!(digits.concat(), "0123456789");
}

#[test]
fn instruction_lines() {
    let mut t = SymbolTable::new();
    let v = temp(&mut t, "v");
    let p = Value::Temporary(t.intern(NameKind::Local, "p"), Repr::Pointer);
    let wide = Value::Temporary(t.intern(NameKind::Local, "wide"), Repr::Int(64));
    let mut out = String::new();
    emit_inst(&t, &Instruction::new(Opcode::Store, vec![v, p], None).unwrap(), &mut out);
    emit_inst(&t, &Instruction::new(Opcode::Load, vec![p], Some(v)).unwrap(), &mut out);
    emit_inst(&t, &Instruction::new(Opcode::Sext, vec![v], Some(wide)).unwrap(), &mut out);
    let one = Value::Constant(1, W);
    emit_inst(&t, &Instruction::new(Opcode::Cle, vec![v, one], Some(v)).unwrap(), &mut out);
    assert_eq!(
        out,
        "    store w %v, p %p\n    load p %p => w %v\n    sext w %v => l %wide\n    cle w %v, w 1 => w %v\n"
    );
}

#[test]
fn mnemonics() {
    let all = [
        (Opcode::Add, "add"),
        (Opcode::Sub, "sub"),
        (Opcode::Mul, "mul"),
        (Opcode::Div, "div"),
        (Opcode::Rem, "rem"),
        (Opcode::And, "and"),
        (Opcode::Or, "or"),
        (Opcode::Xor, "xor"),
        (Opcode::Shl, "shl"),
        (Opcode::Shr, "shr"),
        (Opcode::Ceq, "ceq"),
        (Opcode::Cne, "cne"),
        (Opcode::Clt, "clt"),
        (Opcode::Cle, "cle"),
        (Opcode::Cgt, "cgt"),
        (Opcode::Cge, "cge"),
        (Opcode::Load, "load"),
        (Opcode::Store, "store"),
        (Opcode::Sext, "sext"),
        (Opcode::Zext, "zext"),
        (Opcode::Copy, "copy"),
    ];
    for (op, text) in all {
        assert_eq!(mnemonic(op), text);
    }
}

#[test]
fn jump_lines() {
    let mut t = SymbolTable::new();
    let c = temp(&mut t, "c");
    let yes = t.intern(NameKind::Label, "yes");
    let no = t.intern(NameKind::Label, "no");
    let mut out = String::new();
    emit_jump(&t, Jump::Jmp(yes), &mut out);
    emit_jump(&t, Jump::Jnz(c, yes, no), &mut out);
    emit_jump(&t, Jump::Ret(Some(c)), &mut out);
    emit_jump(&t, Jump::Ret(None), &mut out);
    emit_jump(&t, Jump::Hlt, &mut out);
    assert_eq!(out, "    jmp @yes\n    jnz w %c, @yes, @no\n    ret w %c\n    ret\n    hlt\n");
}

#[test]
fn block_lines() {
    let mut t = SymbolTable::new();
    let a = temp(&mut t, "a");
    let b = temp(&mut t, "b");
    let l = t.intern(NameKind::Label, "body");
    let copy = Instruction::new(Opcode::Copy, vec![a], Some(b)).unwrap();
    let twice = Instruction::new(Opcode::Add, vec![b, b], Some(a)).unwrap();
    let mut out = String::new();
    emit_block(&t, &block(l, vec![copy, twice], Jump::Jmp(l)), &mut out);
    assert_eq!(out, "@body\n    copy w %a => w %b\n    add w %b, w %b => w %a\n    jmp @body\n");
}

#[test]
fn function_and_data_hooks_append_to_what_is_there() {
    let mut t = SymbolTable::new();
    let mut f = add_function(&mut t);
    assert!(f.finalize().is_ok());
    let d = counter(&mut t);
    let mut out = String::from("# unit\n");
    emit_data(&t, &d, &mut out);
    emit_func(&t, &f, &mut out);
    assert_eq!(
        out,
        "# unit\ndata $counter = align 8 { z 4, w 7 }\nfunction $add(w %a, w %b) -> w {\n@start\n    add w %a, w %b => w %t0\n    ret w %t0\n}\n"
    );
    let mut frag = String::new();
    emit_fragment(&t, Fragment::Zero(0), &mut frag);
    frag.push(';');
    emit_fragment(&t, Fragment::Scalar(-3, Repr::Int(8)), &mut frag);
    frag.push(';');
    emit_fragment(&t, Fragment::SymbolRef(d.name()), &mut frag);
    assert_eq!(frag, "z 0;b -3;p $counter");
    assert_eq!(d.linkage(), Linkage::Internal);
}

#[test]
fn scalar_fragment_without_layout_is_refused() {
    let mut t = SymbolTable::new();
    let bad = Repr::Aggregate { size: 0, align: 4 };
    assert!(layout_of(bad).is_err());
    assert!(!has_layout(bad));
    let mut d = Declaration::new(t.intern(NameKind::Global, "d"), Linkage::Internal, 8);
    d.push(Fragment::Zero(4));
    d.push(Fragment::Scalar(1, bad));
    assert!(declaration_is_known(&t, &d));
    assert!(!declaration_is_laid_out(&d));
    let mut unit = Unit::new();
    unit.add_declaration(counter(&mut t));
    unit.add_declaration(d);
    assert!(unit_is_known(&t, &unit));
    assert!(!unit_is_laid_out(&unit));
    assert_eq!(emit_unit(&t, &unit), Err(EmissionContractViolation::IllFormedRepr));
}

#[test]
fn parameter_without_layout_is_refused() {
    let mut t = SymbolTable::new();
    let name = t.intern(NameKind::Global, "f");
    let odd = t.intern(NameKind::Local, "odd");
    let only = t.intern(NameKind::Label, "only");
    let mut f = Function::new(name, vec![Param { name: odd, repr: Repr::Int(7) }], None);
    assert!(f.append_block(block(only, vec![], Jump::Ret(None))));
    assert_eq!(f.finalize(), Ok(vec![]));
    assert!(function_is_known(&t, &f));
    assert!(!function_is_laid_out(&f));
    let mut unit = Unit::new();
    unit.add_function(f);
    assert_eq!(emit_unit(&t, &unit), Err(EmissionContractViolation::IllFormedRepr));
}

#[test]
fn return_repr_and_jump_value_without_layout_are_refused() {
    let mut t = SymbolTable::new();
    let name = t.intern(NameKind::Global, "f");
    let only = t.intern(NameKind::Label, "only");
    let bad = Repr::Float(16);
    let mut f = Function::new(name, vec![], Some(bad));
    assert!(f.append_block(block(only, vec![], Jump::Hlt)));
    assert_eq!(f.finalize(), Ok(vec![]));
    assert!(!function_is_laid_out(&f));
    let mut unit = Unit::new();
    unit.add_function(f);
    assert_eq!(emit_unit(&t, &unit), Err(EmissionContractViolation::IllFormedRepr));

    let mut g = Function::new(name, vec![], Some(bad));
    assert!(g.append_block(block(only, vec![], Jump::Ret(Some(Value::Constant(0, bad))))));
    assert_eq!(g.finalize(), Ok(vec![]));
    assert!(!block_is_laid_out(&g.blocks()[0]));
    assert!(!jump_is_laid_out(g.blocks()[0].jump()));
    assert!(jump_is_laid_out(Jump::Hlt));
    assert!(jump_is_laid_out(Jump::Ret(Some(Value::Constant(0, W)))));
    assert!(!value_is_laid_out(Value::Constant(0, Repr::Int(1))));
    assert!(value_is_laid_out(Value::GlobalRef(name)));
}

#[test]
fn layouts_of_a_well_built_unit_are_in_order() {
    let mut t = SymbolTable::new();
    let mut f = add_function(&mut t);
    assert!(f.finalize().is_ok());
    assert!(function_is_laid_out(&f));
    assert!(block_is_laid_out(&f.blocks()[0]));
    assert!(inst_is_laid_out(f.blocks()[0].inst(0)));
    let d = counter(&mut t);
    assert!(declaration_is_laid_out(&d));
    let mut unit = Unit::new();
    unit.add_function(f);
    unit.add_declaration(d);
    assert!(unit_is_laid_out(&unit));
}

#[test]
fn foreign_names_are_reported_before_missing_layouts() {
    let mut t = SymbolTable::new();
    let mut d = Declaration::new(t.intern(NameKind::Global, "d"), Linkage::Internal, 8);
    d.push(Fragment::Scalar(1, Repr::Int(3)));
    let other = SymbolTable::new();
    let mut unit = Unit::new();
    unit.add_declaration(d);
    assert_eq!(emit_unit(&other, &unit), Err(EmissionContractViolation::ForeignName));
    assert_eq!(emit_unit(&t, &unit), Err(EmissionContractViolation::IllFormedRepr));
}

#[test]
fn instruction_and_jump_are_one_line_each() {
    let mut t = SymbolTable::new();
    let a = temp(&mut t, "a");
    let b = temp(&mut t, "b");
    let yes = t.intern(NameKind::Label, "yes");
    let no = t.intern(NameKind::Label, "no");
    let mut line = String::new();
    emit_inst(&t, &Instruction::new(Opcode::Xor, vec![a, b], Some(a)).unwrap(), &mut line);
    assert_eq!(line.matches('\n').count(), 1);
    assert!(line.ends_with('\n'));
    let mut line = String::new();
    emit_jump(&t, Jump::Jnz(a, yes, no), &mut line);
    assert_eq!(line.matches('\n').count(), 1);
    assert!(line.ends_with('\n'));
}
