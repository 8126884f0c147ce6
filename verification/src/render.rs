//! The rendering rules: the one text that each kind of entity has.
//!
//! The grammar is line-oriented.
//!
//! ```text
//! name      := '$' text | '%' text | '@' text      global, local, label
//! repr      := 'b' | 'h' | 'w' | 'l'               integers of 8, 16, 32, 64 bits
//!            | 's' | 'd'                           floats of 32, 64 bits
//!            | 'p'                                 pointer
//!            | '{' size ':' align '}'              aggregate
//! value     := repr ' ' ( number | name )
//! inst      := '    ' opcode [ ' ' value { ', ' value } ] [ ' => ' value ] '\n'
//! jump      := '    jmp ' name '\n'
//!            | '    jnz ' value ', ' name ', ' name '\n'
//!            | '    ret' [ ' ' value ] '\n'
//!            | '    hlt\n'
//! block     := name '\n' { inst } jump
//! function  := 'function ' name '(' [ param { ', ' param } ] ')' [ ' -> ' repr ] ' {\n'
//!              { block } '}\n'
//! param     := repr ' ' name
//! data      := [ 'export ' ] 'data ' name ' = align ' number ' {'
//!              [ ' ' fragment { ', ' fragment } ] ' }\n'
//! fragment  := 'z ' number | repr ' ' number | 'p ' name
//! ```
//!
//! Only a representation that has a layout has a text. An instruction and a
//! jump are one line each, provided that no name in them holds a line break.
use vstd::prelude::*;
use vstd::string::StringExecFns;
use crate::block::{Block, BlockView, Jump};
use crate::inst::{Instruction, InstructionView, Opcode};
use crate::layout::{has_layout, well_formed, Repr};
use crate::name::{issued_by, Entry, Name, NameKind, SymbolTable};
use crate::text::{decimal, lemma_decimal_unbroken, push_decimal, push_signed, signed_decimal, unbroken};
use crate::value::Value;

verus! {

/// The character that marks the kind of a name.
pub open spec fn sigil(kind: NameKind) -> Seq<char> {
    match kind {
        NameKind::Global => "$"@,
        NameKind::Local => "%"@,
        NameKind::Label => "@"@,
    }
}

/// The text of a name: its sigil and the text it was interned with.
pub open spec fn render_name(t: Seq<Entry>, n: Name) -> Seq<char> {
    sigil(n.kind) + t[n.id as int].1
}

/// The text of a representation that has a layout. One that has none has
/// no text.
pub open spec fn render_repr(r: Repr) -> Seq<char> {
    match r {
        Repr::Int(bits) => if bits == 8 {
            "b"@
        } else if bits == 16 {
            "h"@
        } else if bits == 32 {
            "w"@
        } else if bits == 64 {
            "l"@
        } else {
            Seq::empty()
        },
        Repr::Float(bits) => if bits == 32 {
            "s"@
        } else if bits == 64 {
            "d"@
        } else {
            Seq::empty()
        },
        Repr::Pointer => "p"@,
        Repr::Aggregate { size, align } => "{"@ + decimal(size as nat) + ":"@ + decimal(
            align as nat,
        ) + "}"@,
    }
}

/// The text of a value: its representation, then the number or the name.
pub open spec fn render_value(t: Seq<Entry>, v: Value) -> Seq<char> {
    render_repr(v.spec_repr()) + " "@ + match v {
        Value::Constant(c, _) => signed_decimal(c as int),
        Value::Temporary(n, _) => render_name(t, n),
        Value::GlobalRef(n) => render_name(t, n),
    }
}

/// The mnemonic of an opcode.
pub open spec fn spec_mnemonic(op: Opcode) -> Seq<char> {
    match op {
        Opcode::Add => "add"@,
        Opcode::Sub => "sub"@,
        Opcode::Mul => "mul"@,
        Opcode::Div => "div"@,
        Opcode::Rem => "rem"@,
        Opcode::And => "and"@,
        Opcode::Or => "or"@,
        Opcode::Xor => "xor"@,
        Opcode::Shl => "shl"@,
        Opcode::Shr => "shr"@,
        Opcode::Ceq => "ceq"@,
        Opcode::Cne => "cne"@,
        Opcode::Clt => "clt"@,
        Opcode::Cle => "cle"@,
        Opcode::Cgt => "cgt"@,
        Opcode::Cge => "cge"@,
        Opcode::Load => "load"@,
        Opcode::Store => "store"@,
        Opcode::Sext => "sext"@,
        Opcode::Zext => "zext"@,
        Opcode::Copy => "copy"@,
    }
}

/// The text of the first `upto` operands: a space before the first, a comma
/// and a space before each of the others.
pub open spec fn render_operands(t: Seq<Entry>, operands: Seq<Value>, upto: int) -> Seq<char>
    decreases upto,
{
    if upto <= 0 {
        Seq::empty()
    } else {
        render_operands(t, operands, upto - 1) + (if upto == 1 {
            " "@
        } else {
            ", "@
        }) + render_value(t, operands[upto - 1])
    }
}

/// The text of the destination: nothing, or an arrow and the value.
pub open spec fn render_dest(t: Seq<Entry>, dest: Option<Value>) -> Seq<char> {
    match dest {
        Some(v) => " => "@ + render_value(t, v),
        None => Seq::empty(),
    }
}

/// The line of an instruction, without the line break that ends it.
pub open spec fn inst_text(t: Seq<Entry>, i: InstructionView) -> Seq<char> {
    "    "@ + spec_mnemonic(i.op) + render_operands(t, i.operands, i.operands.len() as int)
        + render_dest(t, i.dest)
}

/// The line of an instruction.
pub open spec fn render_inst(t: Seq<Entry>, i: InstructionView) -> Seq<char> {
    inst_text(t, i) + "\n"@
}

/// The line of a jump, without the line break that ends it.
pub open spec fn jump_text(t: Seq<Entry>, j: Jump) -> Seq<char> {
    match j {
        Jump::Jmp(target) => "    "@ + "jmp"@ + " "@ + render_name(t, target),
        Jump::Jnz(c, yes, no) => "    "@ + "jnz"@ + " "@ + render_value(t, c) + ", "@
            + render_name(t, yes) + ", "@ + render_name(t, no),
        Jump::Ret(Some(v)) => "    "@ + "ret"@ + " "@ + render_value(t, v),
        Jump::Ret(None) => "    "@ + "ret"@,
        Jump::Hlt => "    "@ + "hlt"@,
    }
}

/// The line of a jump.
pub open spec fn render_jump(t: Seq<Entry>, j: Jump) -> Seq<char> {
    jump_text(t, j) + "\n"@
}

/// The lines of the first `upto` instructions.
pub open spec fn render_insts(t: Seq<Entry>, insts: Seq<InstructionView>, upto: int) -> Seq<char>
    decreases upto,
{
    if upto <= 0 {
        Seq::empty()
    } else {
        render_insts(t, insts, upto - 1) + render_inst(t, insts[upto - 1])
    }
}

/// The lines of a block: the label, the instructions in order, the jump.
pub open spec fn render_block(t: Seq<Entry>, b: BlockView) -> Seq<char> {
    render_name(t, b.label) + "\n"@ + render_insts(t, b.insts, b.insts.len() as int)
        + render_jump(t, b.jump)
}

/// Whether the name that `v` refers to, if any, was issued by the table.
pub open spec fn value_known(t: Seq<Entry>, v: Value) -> bool {
    v.spec_name() matches Some(n) ==> issued_by(t, n)
}

/// Whether every name in the instruction was issued by the table.
pub open spec fn inst_known(t: Seq<Entry>, i: InstructionView) -> bool {
    &&& forall|k: int| 0 <= k < i.operands.len() ==> value_known(t, #[trigger] i.operands[k])
    &&& i.dest matches Some(v) ==> value_known(t, v)
}

/// Whether every name in the jump was issued by the table.
pub open spec fn jump_known(t: Seq<Entry>, j: Jump) -> bool {
    &&& j.spec_operand() matches Some(v) ==> value_known(t, v)
    &&& forall|k: int| 0 <= k < j.targets().len() ==> issued_by(t, #[trigger] j.targets()[k])
}

/// Whether every name in the block was issued by the table.
pub open spec fn block_known(t: Seq<Entry>, b: BlockView) -> bool {
    &&& issued_by(t, b.label)
    &&& forall|k: int| 0 <= k < b.insts.len() ==> inst_known(t, #[trigger] b.insts[k])
    &&& jump_known(t, b.jump)
}

/// Whether the representation of `v` has a layout.
pub open spec fn value_laid_out(v: Value) -> bool {
    well_formed(v.spec_repr())
}

/// Whether every operand and the destination of the instruction have a
/// representation with a layout.
pub open spec fn inst_laid_out(i: InstructionView) -> bool {
    &&& forall|k: int| 0 <= k < i.operands.len() ==> value_laid_out(#[trigger] i.operands[k])
    &&& i.dest matches Some(v) ==> value_laid_out(v)
}

/// Whether the value that the jump reads, if any, has a representation
/// with a layout.
pub open spec fn jump_laid_out(j: Jump) -> bool {
    j.spec_operand() matches Some(v) ==> value_laid_out(v)
}

/// Whether every value in the block has a representation with a layout.
pub open spec fn block_laid_out(b: BlockView) -> bool {
    &&& forall|k: int| 0 <= k < b.insts.len() ==> inst_laid_out(#[trigger] b.insts[k])
    &&& jump_laid_out(b.jump)
}

/// Whether the text of the name that `v` refers to, if any, holds no line
/// break.
pub open spec fn value_unbroken(t: Seq<Entry>, v: Value) -> bool {
    v.spec_name() matches Some(n) ==> unbroken(t[n.id as int].1)
}

/// Whether no name in the instruction holds a line break.
pub open spec fn inst_unbroken(t: Seq<Entry>, i: InstructionView) -> bool {
    &&& forall|k: int| 0 <= k < i.operands.len() ==> value_unbroken(t, #[trigger] i.operands[k])
    &&& i.dest matches Some(v) ==> value_unbroken(t, v)
}

/// Whether no name in the jump holds a line break.
pub open spec fn jump_unbroken(t: Seq<Entry>, j: Jump) -> bool {
    &&& j.spec_operand() matches Some(v) ==> value_unbroken(t, v)
    &&& forall|k: int|
        0 <= k < j.targets().len() ==> unbroken(t[(#[trigger] j.targets()[k]).id as int].1)
}

/// Whether `s` is one line: it ends in a line break and holds no other.
pub open spec fn one_line(s: Seq<char>) -> bool {
    s.len() > 0 && s.last() == '\n' && unbroken(s.drop_last())
}

proof fn lemma_unbroken_add(a: Seq<char>, b: Seq<char>)
    requires
        unbroken(a),
        unbroken(b),
    ensures
        unbroken(a + b),
{
}

/// A text of at most five characters, none a line break, holds no line
/// break.
proof fn lemma_short_unbroken(s: Seq<char>)
    requires
        s.len() <= 5,
        s.len() > 0 ==> s[0] != '\n',
        s.len() > 1 ==> s[1] != '\n',
        s.len() > 2 ==> s[2] != '\n',
        s.len() > 3 ==> s[3] != '\n',
        s.len() > 4 ==> s[4] != '\n',
    ensures
        unbroken(s),
{
    assert forall|i: int| 0 <= i < s.len() implies s[i] != '\n' by {
        assert(i == 0 || i == 1 || i == 2 || i == 3 || i == 4);
    }
}

proof fn lemma_marks_unbroken()
    ensures
        unbroken("    "@),
        unbroken(" "@),
        unbroken(", "@),
        unbroken(" => "@),
        unbroken("jmp"@),
        unbroken("jnz"@),
        unbroken("ret"@),
        unbroken("hlt"@),
        unbroken("$"@),
        unbroken("%"@),
        unbroken("@"@),
        "\n"@ == seq!['\n'],
{
    reveal_strlit("    ");
    reveal_strlit(" ");
    reveal_strlit(", ");
    reveal_strlit(" => ");
    reveal_strlit("jmp");
    reveal_strlit("jnz");
    reveal_strlit("ret");
    reveal_strlit("hlt");
    reveal_strlit("$");
    reveal_strlit("%");
    reveal_strlit("@");
    reveal_strlit("\n");
    lemma_short_unbroken("    "@);
    lemma_short_unbroken(" "@);
    lemma_short_unbroken(", "@);
    lemma_short_unbroken(" => "@);
    lemma_short_unbroken("jmp"@);
    lemma_short_unbroken("jnz"@);
    lemma_short_unbroken("ret"@);
    lemma_short_unbroken("hlt"@);
    lemma_short_unbroken("$"@);
    lemma_short_unbroken("%"@);
    lemma_short_unbroken("@"@);
    assert("\n"@ =~= seq!['\n']);
}

proof fn lemma_mnemonic_unbroken(op: Opcode)
    ensures
        unbroken(spec_mnemonic(op)),
{
    reveal_strlit("add");
    reveal_strlit("sub");
    reveal_strlit("mul");
    reveal_strlit("div");
    reveal_strlit("rem");
    reveal_strlit("and");
    reveal_strlit("or");
    reveal_strlit("xor");
    reveal_strlit("shl");
    reveal_strlit("shr");
    reveal_strlit("ceq");
    reveal_strlit("cne");
    reveal_strlit("clt");
    reveal_strlit("cle");
    reveal_strlit("cgt");
    reveal_strlit("cge");
    reveal_strlit("load");
    reveal_strlit("store");
    reveal_strlit("sext");
    reveal_strlit("zext");
    reveal_strlit("copy");
    lemma_short_unbroken(spec_mnemonic(op));
}

proof fn lemma_repr_unbroken(r: Repr)
    ensures
        unbroken(render_repr(r)),
{
    reveal_strlit("b");
    reveal_strlit("h");
    reveal_strlit("w");
    reveal_strlit("l");
    reveal_strlit("s");
    reveal_strlit("d");
    reveal_strlit("p");
    reveal_strlit("{");
    reveal_strlit(":");
    reveal_strlit("}");
    match r {
        Repr::Aggregate { size, align } => {
            lemma_short_unbroken("{"@);
            lemma_short_unbroken(":"@);
            lemma_short_unbroken("}"@);
            lemma_decimal_unbroken(size as nat);
            lemma_decimal_unbroken(align as nat);
            lemma_unbroken_add("{"@, decimal(size as nat));
            lemma_unbroken_add("{"@ + decimal(size as nat), ":"@);
            lemma_unbroken_add("{"@ + decimal(size as nat) + ":"@, decimal(align as nat));
            lemma_unbroken_add(
                "{"@ + decimal(size as nat) + ":"@ + decimal(align as nat),
                "}"@,
            );
        },
        _ => {
            lemma_short_unbroken(render_repr(r));
        },
    }
}

proof fn lemma_name_unbroken(t: Seq<Entry>, n: Name)
    requires
        unbroken(t[n.id as int].1),
    ensures
        unbroken(render_name(t, n)),
{
    lemma_marks_unbroken();
    lemma_unbroken_add(sigil(n.kind), t[n.id as int].1);
}

proof fn lemma_value_unbroken(t: Seq<Entry>, v: Value)
    requires
        value_unbroken(t, v),
    ensures
        unbroken(render_value(t, v)),
{
    lemma_marks_unbroken();
    lemma_repr_unbroken(v.spec_repr());
    lemma_unbroken_add(render_repr(v.spec_repr()), " "@);
    match v {
        Value::Constant(c, _) => {
            crate::text::lemma_signed_unbroken(c as int);
            lemma_unbroken_add(render_repr(v.spec_repr()) + " "@, signed_decimal(c as int));
        },
        Value::Temporary(n, _) => {
            lemma_name_unbroken(t, n);
            lemma_unbroken_add(render_repr(v.spec_repr()) + " "@, render_name(t, n));
        },
        Value::GlobalRef(n) => {
            lemma_name_unbroken(t, n);
            lemma_unbroken_add(render_repr(v.spec_repr()) + " "@, render_name(t, n));
        },
    }
}

proof fn lemma_operands_unbroken(t: Seq<Entry>, operands: Seq<Value>, upto: int)
    requires
        0 <= upto <= operands.len(),
        forall|k: int| 0 <= k < operands.len() ==> value_unbroken(t, #[trigger] operands[k]),
    ensures
        unbroken(render_operands(t, operands, upto)),
    decreases upto,
{
    if upto > 0 {
        lemma_marks_unbroken();
        lemma_operands_unbroken(t, operands, upto - 1);
        lemma_value_unbroken(t, operands[upto - 1]);
        let mark = if upto == 1 {
            " "@
        } else {
            ", "@
        };
        lemma_unbroken_add(render_operands(t, operands, upto - 1), mark);
        lemma_unbroken_add(
            render_operands(t, operands, upto - 1) + mark,
            render_value(t, operands[upto - 1]),
        );
    }
}

proof fn lemma_line(body: Seq<char>)
    requires
        unbroken(body),
    ensures
        one_line(body + "\n"@),
{
    lemma_marks_unbroken();
    assert((body + "\n"@).drop_last() =~= body);
}

/// An instruction is rendered as one line: its text ends in a line break
/// and holds no other, provided that no name in it holds one.
pub proof fn lemma_inst_is_one_line(t: Seq<Entry>, i: InstructionView)
    requires
        inst_unbroken(t, i),
    ensures
        one_line(render_inst(t, i)),
{
    lemma_marks_unbroken();
    lemma_mnemonic_unbroken(i.op);
    lemma_operands_unbroken(t, i.operands, i.operands.len() as int);
    let head = "    "@ + spec_mnemonic(i.op);
    let operands = render_operands(t, i.operands, i.operands.len() as int);
    lemma_unbroken_add("    "@, spec_mnemonic(i.op));
    lemma_unbroken_add(head, operands);
    match i.dest {
        Some(v) => {
            lemma_value_unbroken(t, v);
            lemma_unbroken_add(" => "@, render_value(t, v));
        },
        None => {},
    }
    lemma_unbroken_add(head + operands, render_dest(t, i.dest));
    lemma_line(inst_text(t, i));
}

/// A jump is rendered as one line: its text ends in a line break and holds
/// no other, provided that no name in it holds one.
pub proof fn lemma_jump_is_one_line(t: Seq<Entry>, j: Jump)
    requires
        jump_unbroken(t, j),
    ensures
        one_line(render_jump(t, j)),
{
    lemma_marks_unbroken();
    match j {
        Jump::Jmp(target) => {
            assert(j.targets()[0] == target);
            lemma_name_unbroken(t, target);
            lemma_unbroken_add("    "@, "jmp"@);
            lemma_unbroken_add("    "@ + "jmp"@, " "@);
            lemma_unbroken_add("    "@ + "jmp"@ + " "@, render_name(t, target));
        },
        Jump::Jnz(c, yes, no) => {
            assert(j.targets()[0] == yes);
            assert(j.targets()[1] == no);
            lemma_value_unbroken(t, c);
            lemma_name_unbroken(t, yes);
            lemma_name_unbroken(t, no);
            let a = "    "@ + "jnz"@ + " "@;
            lemma_unbroken_add("    "@, "jnz"@);
            lemma_unbroken_add("    "@ + "jnz"@, " "@);
            lemma_unbroken_add(a, render_value(t, c));
            lemma_unbroken_add(a + render_value(t, c), ", "@);
            lemma_unbroken_add(a + render_value(t, c) + ", "@, render_name(t, yes));
            lemma_unbroken_add(a + render_value(t, c) + ", "@ + render_name(t, yes), ", "@);
            lemma_unbroken_add(
                a + render_value(t, c) + ", "@ + render_name(t, yes) + ", "@,
                render_name(t, no),
            );
        },
        Jump::Ret(Some(v)) => {
            lemma_value_unbroken(t, v);
            lemma_unbroken_add("    "@, "ret"@);
            lemma_unbroken_add("    "@ + "ret"@, " "@);
            lemma_unbroken_add("    "@ + "ret"@ + " "@, render_value(t, v));
        },
        Jump::Ret(None) => {
            lemma_unbroken_add("    "@, "ret"@);
        },
        Jump::Hlt => {
            lemma_unbroken_add("    "@, "hlt"@);
        },
    }
    lemma_line(jump_text(t, j));
}

/// Appends the text of `n`.
pub fn emit_name(table: &SymbolTable, n: Name, out: &mut String)
    requires
        issued_by(table@, n),
    ensures
        final(out)@ == old(out)@ + render_name(table@, n),
{
    match n.kind {
        NameKind::Global => out.append("$"),
        NameKind::Local => out.append("%"),
        NameKind::Label => out.append("@"),
    }
    out.append(table.resolve(n));
    assert(out@ =~= old(out)@ + render_name(table@, n));
}

/// Appends the text of `r`, a representation that has a layout.
pub fn emit_repr(r: Repr, out: &mut String)
    requires
        well_formed(r),
    ensures
        final(out)@ == old(out)@ + render_repr(r),
{
    match r {
        Repr::Int(bits) => {
            if bits == 8 {
                out.append("b");
            } else if bits == 16 {
                out.append("h");
            } else if bits == 32 {
                out.append("w");
            } else {
                out.append("l");
            }
        },
        Repr::Float(bits) => {
            if bits == 32 {
                out.append("s");
            } else {
                out.append("d");
            }
        },
        Repr::Pointer => out.append("p"),
        Repr::Aggregate { size, align } => {
            out.append("{");
            push_decimal(out, size);
            out.append(":");
            push_decimal(out, align);
            out.append("}");
        },
    }
    assert(out@ =~= old(out)@ + render_repr(r));
}

/// Appends the text of `v`.
pub fn emit_value(table: &SymbolTable, v: Value, out: &mut String)
    requires
        value_known(table@, v),
        value_laid_out(v),
    ensures
        final(out)@ == old(out)@ + render_value(table@, v),
{
    emit_repr(v.repr(), out);
    out.append(" ");
    match v {
        Value::Constant(c, _) => push_signed(out, c),
        Value::Temporary(n, _) => emit_name(table, n, out),
        Value::GlobalRef(n) => emit_name(table, n, out),
    }
    assert(out@ =~= old(out)@ + render_value(table@, v));
}

/// The mnemonic of `op`.
pub fn mnemonic(op: Opcode) -> (s: &'static str)
    ensures
        s@ == spec_mnemonic(op),
{
    match op {
        Opcode::Add => "add",
        Opcode::Sub => "sub",
        Opcode::Mul => "mul",
        Opcode::Div => "div",
        Opcode::Rem => "rem",
        Opcode::And => "and",
        Opcode::Or => "or",
        Opcode::Xor => "xor",
        Opcode::Shl => "shl",
        Opcode::Shr => "shr",
        Opcode::Ceq => "ceq",
        Opcode::Cne => "cne",
        Opcode::Clt => "clt",
        Opcode::Cle => "cle",
        Opcode::Cgt => "cgt",
        Opcode::Cge => "cge",
        Opcode::Load => "load",
        Opcode::Store => "store",
        Opcode::Sext => "sext",
        Opcode::Zext => "zext",
        Opcode::Copy => "copy",
    }
}

/// Appends the line of `inst`.
pub fn emit_inst(table: &SymbolTable, inst: &Instruction, out: &mut String)
    requires
        inst_known(table@, inst@),
        inst_laid_out(inst@),
    ensures
        final(out)@ == old(out)@ + render_inst(table@, inst@),
{
    out.append("    ");
    out.append(mnemonic(inst.op()));
    let operands = inst.operands();
    let n = operands.len();
    let ghost head = out@;
    let mut k: usize = 0;
    assert(out@ =~= head + render_operands(table@, operands@, 0));
    while k < n
        invariant
            k <= n,
            n == operands@.len(),
            operands@ == inst@.operands,
            inst_known(table@, inst@),
            inst_laid_out(inst@),
            out@ == head + render_operands(table@, operands@, k as int),
        decreases n - k,
    {
        if k == 0 {
            out.append(" ");
        } else {
            out.append(", ");
        }
        emit_value(table, operands[k], out);
        assert(out@ =~= head + render_operands(table@, operands@, k + 1));
        k += 1;
    }
    match inst.dest() {
        Some(v) => {
            out.append(" => ");
            emit_value(table, v, out);
        },
        None => {},
    }
    out.append("\n");
    assert(out@ =~= old(out)@ + render_inst(table@, inst@));
}

/// Appends the line of `jump`.
pub fn emit_jump(table: &SymbolTable, jump: Jump, out: &mut String)
    requires
        jump_known(table@, jump),
        jump_laid_out(jump),
    ensures
        final(out)@ == old(out)@ + render_jump(table@, jump),
{
    out.append("    ");
    match jump {
        Jump::Jmp(target) => {
            assert(jump.targets()[0] == target);
            out.append("jmp");
            out.append(" ");
            emit_name(table, target, out);
        },
        Jump::Jnz(c, yes, no) => {
            assert(jump.targets()[0] == yes);
            assert(jump.targets()[1] == no);
            out.append("jnz");
            out.append(" ");
            emit_value(table, c, out);
            out.append(", ");
            emit_name(table, yes, out);
            out.append(", ");
            emit_name(table, no, out);
        },
        Jump::Ret(Some(v)) => {
            out.append("ret");
            out.append(" ");
            emit_value(table, v, out);
        },
        Jump::Ret(None) => {
            out.append("ret");
        },
        Jump::Hlt => {
            out.append("hlt");
        },
    }
    out.append("\n");
    assert(out@ =~= old(out)@ + render_jump(table@, jump));
}

/// Appends the lines of `block`.
pub fn emit_block(table: &SymbolTable, block: &Block, out: &mut String)
    requires
        block_known(table@, block@),
        block_laid_out(block@),
    ensures
        final(out)@ == old(out)@ + render_block(table@, block@),
{
    emit_name(table, block.label(), out);
    out.append("\n");
    let ghost head = out@;
    let n = block.len();
    let mut i: usize = 0;
    assert(out@ =~= head + render_insts(table@, block@.insts, 0));
    while i < n
        invariant
            i <= n,
            n == block@.insts.len(),
            block_known(table@, block@),
            block_laid_out(block@),
            out@ == head + render_insts(table@, block@.insts, i as int),
        decreases n - i,
    {
        emit_inst(table, block.inst(i), out);
        assert(out@ =~= head + render_insts(table@, block@.insts, i + 1));
        i += 1;
    }
    emit_jump(table, block.jump(), out);
    assert(out@ =~= old(out)@ + render_block(table@, block@));
}

/// Whether the representation of `v` has a layout.
pub fn value_is_laid_out(v: Value) -> (b: bool)
    ensures
        b == value_laid_out(v),
{
    has_layout(v.repr())
}

/// Whether every value in `inst` has a representation with a layout.
pub fn inst_is_laid_out(inst: &Instruction) -> (b: bool)
    ensures
        b == inst_laid_out(inst@),
{
    let operands = inst.operands();
    let n = operands.len();
    let mut k: usize = 0;
    while k < n
        invariant
            k <= n,
            n == operands@.len(),
            operands@ == inst@.operands,
            forall|j: int| 0 <= j < k ==> value_laid_out(#[trigger] operands@[j]),
        decreases n - k,
    {
        if !value_is_laid_out(operands[k]) {
            return false;
        }
        k += 1;
    }
    match inst.dest() {
        Some(v) => value_is_laid_out(v),
        None => true,
    }
}

/// Whether the value that `jump` reads, if any, has a representation with
/// a layout.
pub fn jump_is_laid_out(jump: Jump) -> (b: bool)
    ensures
        b == jump_laid_out(jump),
{
    match jump.operand() {
        Some(v) => value_is_laid_out(v),
        None => true,
    }
}

/// Whether every value in `block` has a representation with a layout.
pub fn block_is_laid_out(block: &Block) -> (b: bool)
    ensures
        b == block_laid_out(block@),
{
    let n = block.len();
    let mut i: usize = 0;
    while i < n
        invariant
            i <= n,
            n == block@.insts.len(),
            forall|j: int| 0 <= j < i ==> inst_laid_out(#[trigger] block@.insts[j]),
        decreases n - i,
    {
        if !inst_is_laid_out(block.inst(i)) {
            return false;
        }
        i += 1;
    }
    jump_is_laid_out(block.jump())
}

} // verus!
