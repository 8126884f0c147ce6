//! The emitter: renders a whole unit, data first and functions after, each
//! in the order it was added.
//!
//! Emission is all or nothing. A unit that holds a function which is not
//! finalized, a name that the symbol table did not issue, or a
//! representation that has no layout yields no text.
use vstd::prelude::*;
use vstd::string::StringExecFns;
use crate::block::{block_views, Block, BlockView, Jump};
use crate::data::{Declaration, DeclarationView, Fragment, Linkage};
use crate::function::{Function, FunctionView, Param};
use crate::inst::{Instruction, InstructionView};
use crate::layout::{has_layout, well_formed, Repr};
use crate::name::{issued_by, Entry, Name, SymbolTable};
use crate::render::{
    block_is_laid_out, block_known, block_laid_out, emit_block, emit_name, emit_repr, inst_known,
    jump_known, render_block, render_name, render_repr, value_known,
};
use crate::text::{decimal, push_decimal, push_signed, signed_decimal};
use crate::value::Value;

verus! {

/// Why a unit was not emitted.
#[derive(Clone, Copy, Debug, PartialEq, Eq, Structural, Hash)]
pub enum EmissionContractViolation {
    /// A function of the unit is open or has failed finalization.
    UnfinalizedFunction,
    /// The unit holds a name that the symbol table did not issue.
    ForeignName,
    /// The unit holds a representation that has no layout: in a parameter,
    /// a return representation, an operand, a destination, a value read by
    /// a jump, or a scalar fragment.
    IllFormedRepr,
}

/// A compilation unit: its data and its functions.
#[derive(Debug)]
pub struct Unit {
    decls: Vec<Declaration>,
    funcs: Vec<Function>,
}

/// What a unit is, as plain data.
pub struct UnitView {
    pub decls: Seq<DeclarationView>,
    pub funcs: Seq<FunctionView>,
}

/// The declarations of a sequence, each as plain data.
pub open spec fn declaration_views(ds: Seq<Declaration>) -> Seq<DeclarationView> {
    ds.map_values(|d: Declaration| d@)
}

/// The functions of a sequence, each as plain data.
pub open spec fn function_views(fs: Seq<Function>) -> Seq<FunctionView> {
    fs.map_values(|f: Function| f@)
}

impl View for Unit {
    type V = UnitView;

    closed spec fn view(&self) -> UnitView {
        UnitView { decls: declaration_views(self.decls@), funcs: function_views(self.funcs@) }
    }
}

/// The text of the first `upto` parameters, a comma and a space between
/// them.
pub open spec fn render_params(t: Seq<Entry>, params: Seq<Param>, upto: int) -> Seq<char>
    decreases upto,
{
    if upto <= 0 {
        Seq::empty()
    } else {
        render_params(t, params, upto - 1) + (if upto == 1 {
            Seq::empty()
        } else {
            ", "@
        }) + render_repr(params[upto - 1].repr) + " "@ + render_name(t, params[upto - 1].name)
    }
}

/// The text of the return representation: nothing, or an arrow and the
/// representation.
pub open spec fn render_ret(ret: Option<Repr>) -> Seq<char> {
    match ret {
        Some(r) => " -> "@ + render_repr(r),
        None => Seq::empty(),
    }
}

/// The lines of the first `upto` blocks.
pub open spec fn render_blocks(t: Seq<Entry>, blocks: Seq<BlockView>, upto: int) -> Seq<char>
    decreases upto,
{
    if upto <= 0 {
        Seq::empty()
    } else {
        render_blocks(t, blocks, upto - 1) + render_block(t, blocks[upto - 1])
    }
}

/// The lines of a function.
pub open spec fn render_function(t: Seq<Entry>, f: FunctionView) -> Seq<char> {
    "function "@ + render_name(t, f.name) + "("@ + render_params(
        t,
        f.params,
        f.params.len() as int,
    ) + ")"@ + render_ret(f.ret) + " {\n"@ + render_blocks(t, f.blocks, f.blocks.len() as int)
        + "}\n"@
}

/// The text of an initializer fragment.
pub open spec fn render_fragment(t: Seq<Entry>, f: Fragment) -> Seq<char> {
    match f {
        Fragment::Zero(n) => "z "@ + decimal(n as nat),
        Fragment::Scalar(c, r) => render_repr(r) + " "@ + signed_decimal(c as int),
        Fragment::SymbolRef(n) => "p "@ + render_name(t, n),
    }
}

/// The text of the first `upto` fragments: a space before the first, a comma
/// and a space before each of the others.
pub open spec fn render_fragments(t: Seq<Entry>, fs: Seq<Fragment>, upto: int) -> Seq<char>
    decreases upto,
{
    if upto <= 0 {
        Seq::empty()
    } else {
        render_fragments(t, fs, upto - 1) + (if upto == 1 {
            " "@
        } else {
            ", "@
        }) + render_fragment(t, fs[upto - 1])
    }
}

/// The word for the visibility of a datum.
pub open spec fn render_linkage(l: Linkage) -> Seq<char> {
    match l {
        Linkage::Export => "export "@,
        Linkage::Internal => Seq::empty(),
    }
}

/// The line of a data declaration.
pub open spec fn render_declaration(t: Seq<Entry>, d: DeclarationView) -> Seq<char> {
    render_linkage(d.linkage) + "data "@ + render_name(t, d.name) + " = align "@ + decimal(
        d.align as nat,
    ) + " {"@ + render_fragments(t, d.fragments, d.fragments.len() as int) + " }\n"@
}

/// The lines of the first `upto` declarations.
pub open spec fn render_declarations(t: Seq<Entry>, ds: Seq<DeclarationView>, upto: int) -> Seq<
    char,
>
    decreases upto,
{
    if upto <= 0 {
        Seq::empty()
    } else {
        render_declarations(t, ds, upto - 1) + render_declaration(t, ds[upto - 1])
    }
}

/// The lines of the first `upto` functions.
pub open spec fn render_functions(t: Seq<Entry>, fs: Seq<FunctionView>, upto: int) -> Seq<char>
    decreases upto,
{
    if upto <= 0 {
        Seq::empty()
    } else {
        render_functions(t, fs, upto - 1) + render_function(t, fs[upto - 1])
    }
}

/// The text of a unit: every declaration in order, then every function in
/// order.
pub open spec fn render_unit(t: Seq<Entry>, u: UnitView) -> Seq<char> {
    render_declarations(t, u.decls, u.decls.len() as int) + render_functions(
        t,
        u.funcs,
        u.funcs.len() as int,
    )
}

/// Whether every name in the function was issued by the table.
pub open spec fn function_known(t: Seq<Entry>, f: FunctionView) -> bool {
    &&& issued_by(t, f.name)
    &&& forall|k: int| 0 <= k < f.params.len() ==> issued_by(t, (#[trigger] f.params[k]).name)
    &&& forall|k: int| 0 <= k < f.blocks.len() ==> block_known(t, #[trigger] f.blocks[k])
}

/// Whether the name in the fragment, if any, was issued by the table.
pub open spec fn fragment_known(t: Seq<Entry>, f: Fragment) -> bool {
    f matches Fragment::SymbolRef(n) ==> issued_by(t, n)
}

/// Whether every name in the declaration was issued by the table.
pub open spec fn declaration_known(t: Seq<Entry>, d: DeclarationView) -> bool {
    &&& issued_by(t, d.name)
    &&& forall|k: int| 0 <= k < d.fragments.len() ==> fragment_known(t, #[trigger] d.fragments[k])
}

/// Whether every representation in the function has a layout: those of
/// the parameters, the return representation, and those of the values in
/// the blocks.
pub open spec fn function_laid_out(f: FunctionView) -> bool {
    &&& forall|k: int| 0 <= k < f.params.len() ==> well_formed((#[trigger] f.params[k]).repr)
    &&& f.ret matches Some(r) ==> well_formed(r)
    &&& forall|k: int| 0 <= k < f.blocks.len() ==> block_laid_out(#[trigger] f.blocks[k])
}

/// Whether the representation in the fragment, if any, has a layout.
pub open spec fn fragment_laid_out(f: Fragment) -> bool {
    f matches Fragment::Scalar(_, r) ==> well_formed(r)
}

/// Whether every representation in the declaration has a layout.
pub open spec fn declaration_laid_out(d: DeclarationView) -> bool {
    forall|k: int| 0 <= k < d.fragments.len() ==> fragment_laid_out(#[trigger] d.fragments[k])
}

/// Whether every representation in the unit has a layout.
pub open spec fn unit_laid_out(u: UnitView) -> bool {
    &&& forall|k: int| 0 <= k < u.decls.len() ==> declaration_laid_out(#[trigger] u.decls[k])
    &&& forall|k: int| 0 <= k < u.funcs.len() ==> function_laid_out(#[trigger] u.funcs[k])
}

/// Whether every function of the unit is finalized.
pub open spec fn all_finalized(u: UnitView) -> bool {
    forall|k: int| 0 <= k < u.funcs.len() ==> (#[trigger] u.funcs[k]).status is Finalized
}

/// Whether every name in the unit was issued by the table.
pub open spec fn unit_known(t: Seq<Entry>, u: UnitView) -> bool {
    &&& forall|k: int| 0 <= k < u.decls.len() ==> declaration_known(t, #[trigger] u.decls[k])
    &&& forall|k: int| 0 <= k < u.funcs.len() ==> function_known(t, #[trigger] u.funcs[k])
}

/// What emission of the unit yields: its text, or why it has none.
pub open spec fn emission(t: Seq<Entry>, u: UnitView) -> Result<
    Seq<char>,
    EmissionContractViolation,
> {
    if !all_finalized(u) {
        Err(EmissionContractViolation::UnfinalizedFunction)
    } else if !unit_known(t, u) {
        Err(EmissionContractViolation::ForeignName)
    } else if !unit_laid_out(u) {
        Err(EmissionContractViolation::IllFormedRepr)
    } else {
        Ok(render_unit(t, u))
    }
}

/// Whether `r` is what emission of the unit yields.
pub open spec fn emitted(t: Seq<Entry>, u: UnitView, r: Result<String, EmissionContractViolation>)
    -> bool {
    match r {
        Ok(text) => emission(t, u) == Ok::<Seq<char>, EmissionContractViolation>(text@),
        Err(e) => emission(t, u) == Err::<Seq<char>, EmissionContractViolation>(e),
    }
}

/// Emission is deterministic: two emissions of the same unit with the same
/// table contents, in one process or in two, yield the same text character
/// for character, or fail alike.
pub proof fn lemma_emission_deterministic(
    table_a: Seq<Entry>,
    unit_a: UnitView,
    result_a: Result<String, EmissionContractViolation>,
    table_b: Seq<Entry>,
    unit_b: UnitView,
    result_b: Result<String, EmissionContractViolation>,
)
    requires
        table_a == table_b,
        unit_a == unit_b,
        emitted(table_a, unit_a, result_a),
        emitted(table_b, unit_b, result_b),
    ensures
        result_a is Ok <==> result_b is Ok,
        result_a matches Ok(a) ==> result_b matches Ok(b) && a@ == b@,
        result_a matches Err(a) ==> result_b matches Err(b) && a == b,
{
}

/// Whether the name that `v` refers to, if any, was issued by `table`.
pub fn value_is_known(table: &SymbolTable, v: Value) -> (b: bool)
    ensures
        b == value_known(table@, v),
{
    match v.name() {
        Some(n) => table.owns(n),
        None => true,
    }
}

/// Whether every name in `inst` was issued by `table`.
pub fn inst_is_known(table: &SymbolTable, inst: &Instruction) -> (b: bool)
    ensures
        b == inst_known(table@, inst@),
{
    let operands = inst.operands();
    let n = operands.len();
    let mut k: usize = 0;
    while k < n
        invariant
            k <= n,
            n == operands@.len(),
            operands@ == inst@.operands,
            forall|j: int| 0 <= j < k ==> value_known(table@, #[trigger] operands@[j]),
        decreases n - k,
    {
        if !value_is_known(table, operands[k]) {
            return false;
        }
        k += 1;
    }
    match inst.dest() {
        Some(v) => value_is_known(table, v),
        None => true,
    }
}

/// Whether every name in `jump` was issued by `table`.
pub fn jump_is_known(table: &SymbolTable, jump: Jump) -> (b: bool)
    ensures
        b == jump_known(table@, jump),
{
    let operand_known = match jump.operand() {
        Some(v) => value_is_known(table, v),
        None => true,
    };
    let first_known = match jump.first_target() {
        Some(n) => table.owns(n),
        None => true,
    };
    let second_known = match jump.second_target() {
        Some(n) => table.owns(n),
        None => true,
    };
    proof {
        if first_known && second_known {
            assert forall|k: int| 0 <= k < jump.targets().len() implies issued_by(
                table@,
                #[trigger] jump.targets()[k],
            ) by {
                assert(k == 0 || k == 1);
            }
        }
        if !first_known {
            assert(!issued_by(table@, jump.targets()[0]));
        }
        if !second_known {
            assert(!issued_by(table@, jump.targets()[1]));
        }
    }
    operand_known && first_known && second_known
}

/// Whether every name in `block` was issued by `table`.
pub fn block_is_known(table: &SymbolTable, block: &Block) -> (b: bool)
    ensures
        b == block_known(table@, block@),
{
    if !table.owns(block.label()) {
        return false;
    }
    let n = block.len();
    let mut i: usize = 0;
    while i < n
        invariant
            i <= n,
            n == block@.insts.len(),
            forall|j: int| 0 <= j < i ==> inst_known(table@, #[trigger] block@.insts[j]),
        decreases n - i,
    {
        if !inst_is_known(table, block.inst(i)) {
            return false;
        }
        i += 1;
    }
    jump_is_known(table, block.jump())
}

/// Whether every name in `f` was issued by `table`.
pub fn function_is_known(table: &SymbolTable, f: &Function) -> (b: bool)
    ensures
        b == function_known(table@, f@),
{
    if !table.owns(f.name()) {
        return false;
    }
    let params = f.params();
    let np = params.len();
    let mut k: usize = 0;
    while k < np
        invariant
            k <= np,
            np == params@.len(),
            params@ == f@.params,
            forall|j: int| 0 <= j < k ==> issued_by(table@, (#[trigger] params@[j]).name),
        decreases np - k,
    {
        if !table.owns(params[k].name) {
            return false;
        }
        k += 1;
    }
    let blocks = f.blocks();
    let nb = blocks.len();
    let mut b: usize = 0;
    while b < nb
        invariant
            b <= nb,
            nb == blocks@.len(),
            block_views(blocks@) == f@.blocks,
            forall|j: int| 0 <= j < b ==> block_known(table@, #[trigger] f@.blocks[j]),
        decreases nb - b,
    {
        assert(blocks@[b as int]@ == f@.blocks[b as int]);
        if !block_is_known(table, &blocks[b]) {
            return false;
        }
        b += 1;
    }
    true
}

/// Whether every name in `d` was issued by `table`.
pub fn declaration_is_known(table: &SymbolTable, d: &Declaration) -> (b: bool)
    ensures
        b == declaration_known(table@, d@),
{
    if !table.owns(d.name()) {
        return false;
    }
    let fragments = d.fragments();
    let n = fragments.len();
    let mut k: usize = 0;
    while k < n
        invariant
            k <= n,
            n == fragments@.len(),
            fragments@ == d@.fragments,
            forall|j: int| 0 <= j < k ==> fragment_known(table@, #[trigger] fragments@[j]),
        decreases n - k,
    {
        match fragments[k] {
            Fragment::SymbolRef(name) => {
                if !table.owns(name) {
                    return false;
                }
            },
            _ => {},
        }
        k += 1;
    }
    true
}

/// Whether every representation in `f` has a layout.
pub fn function_is_laid_out(f: &Function) -> (b: bool)
    ensures
        b == function_laid_out(f@),
{
    let params = f.params();
    let np = params.len();
    let mut k: usize = 0;
    while k < np
        invariant
            k <= np,
            np == params@.len(),
            params@ == f@.params,
            forall|j: int| 0 <= j < k ==> well_formed((#[trigger] params@[j]).repr),
        decreases np - k,
    {
        if !has_layout(params[k].repr) {
            return false;
        }
        k += 1;
    }
    match f.ret() {
        Some(r) => {
            if !has_layout(r) {
                return false;
            }
        },
        None => {},
    }
    let blocks = f.blocks();
    let nb = blocks.len();
    let mut b: usize = 0;
    while b < nb
        invariant
            b <= nb,
            nb == blocks@.len(),
            block_views(blocks@) == f@.blocks,
            forall|j: int| 0 <= j < b ==> block_laid_out(#[trigger] f@.blocks[j]),
        decreases nb - b,
    {
        assert(blocks@[b as int]@ == f@.blocks[b as int]);
        if !block_is_laid_out(&blocks[b]) {
            return false;
        }
        b += 1;
    }
    true
}

/// Whether every representation in `d` has a layout.
pub fn declaration_is_laid_out(d: &Declaration) -> (b: bool)
    ensures
        b == declaration_laid_out(d@),
{
    let fragments = d.fragments();
    let n = fragments.len();
    let mut k: usize = 0;
    while k < n
        invariant
            k <= n,
            n == fragments@.len(),
            fragments@ == d@.fragments,
            forall|j: int| 0 <= j < k ==> fragment_laid_out(#[trigger] fragments@[j]),
        decreases n - k,
    {
        match fragments[k] {
            Fragment::Scalar(_, r) => {
                if !has_layout(r) {
                    return false;
                }
            },
            _ => {},
        }
        k += 1;
    }
    true
}

/// Appends the lines of the finalized function `f`.
pub fn emit_func(table: &SymbolTable, f: &Function, out: &mut String)
    requires
        f@.status is Finalized,
        function_known(table@, f@),
        function_laid_out(f@),
    ensures
        final(out)@ == old(out)@ + render_function(table@, f@),
{
    out.append("function ");
    emit_name(table, f.name(), out);
    out.append("(");
    let ghost head = out@;
    let params = f.params();
    let np = params.len();
    let mut k: usize = 0;
    assert(out@ =~= head + render_params(table@, params@, 0));
    while k < np
        invariant
            k <= np,
            np == params@.len(),
            params@ == f@.params,
            function_known(table@, f@),
            function_laid_out(f@),
            out@ == head + render_params(table@, params@, k as int),
        decreases np - k,
    {
        if k != 0 {
            out.append(", ");
        }
        emit_repr(params[k].repr, out);
        out.append(" ");
        emit_name(table, params[k].name, out);
        assert(out@ =~= head + render_params(table@, params@, k + 1));
        k += 1;
    }
    out.append(")");
    match f.ret() {
        Some(r) => {
            out.append(" -> ");
            emit_repr(r, out);
        },
        None => {},
    }
    out.append(" {\n");
    let ghost body = out@;
    assert(body =~= old(out)@ + "function "@ + render_name(table@, f@.name) + "("@
        + render_params(table@, f@.params, f@.params.len() as int) + ")"@ + render_ret(f@.ret)
        + " {\n"@);
    let blocks = f.blocks();
    let nb = blocks.len();
    let mut b: usize = 0;
    assert(out@ =~= body + render_blocks(table@, f@.blocks, 0));
    while b < nb
        invariant
            b <= nb,
            nb == blocks@.len(),
            block_views(blocks@) == f@.blocks,
            function_known(table@, f@),
            function_laid_out(f@),
            out@ == body + render_blocks(table@, f@.blocks, b as int),
        decreases nb - b,
    {
        assert(blocks@[b as int]@ == f@.blocks[b as int]);
        emit_block(table, &blocks[b], out);
        assert(out@ =~= body + render_blocks(table@, f@.blocks, b + 1));
        b += 1;
    }
    out.append("}\n");
    assert(out@ =~= old(out)@ + render_function(table@, f@));
}

/// Appends the text of `fragment`.
pub fn emit_fragment(table: &SymbolTable, fragment: Fragment, out: &mut String)
    requires
        fragment_known(table@, fragment),
        fragment_laid_out(fragment),
    ensures
        final(out)@ == old(out)@ + render_fragment(table@, fragment),
{
    match fragment {
        Fragment::Zero(n) => {
            out.append("z ");
            push_decimal(out, n);
        },
        Fragment::Scalar(c, r) => {
            emit_repr(r, out);
            out.append(" ");
            push_signed(out, c);
        },
        Fragment::SymbolRef(n) => {
            out.append("p ");
            emit_name(table, n, out);
        },
    }
    assert(out@ =~= old(out)@ + render_fragment(table@, fragment));
}

/// Appends the line of the data declaration `d`.
pub fn emit_data(table: &SymbolTable, d: &Declaration, out: &mut String)
    requires
        declaration_known(table@, d@),
        declaration_laid_out(d@),
    ensures
        final(out)@ == old(out)@ + render_declaration(table@, d@),
{
    match d.linkage() {
        Linkage::Export => out.append("export "),
        Linkage::Internal => {},
    }
    out.append("data ");
    emit_name(table, d.name(), out);
    out.append(" = align ");
    push_decimal(out, d.align());
    out.append(" {");
    let ghost head = out@;
    assert(head =~= old(out)@ + render_linkage(d@.linkage) + "data "@ + render_name(
        table@,
        d@.name,
    ) + " = align "@ + decimal(d@.align as nat) + " {"@);
    let fragments = d.fragments();
    let n = fragments.len();
    let mut k: usize = 0;
    assert(out@ =~= head + render_fragments(table@, fragments@, 0));
    while k < n
        invariant
            k <= n,
            n == fragments@.len(),
            fragments@ == d@.fragments,
            declaration_known(table@, d@),
            declaration_laid_out(d@),
            out@ == head + render_fragments(table@, fragments@, k as int),
        decreases n - k,
    {
        if k == 0 {
            out.append(" ");
        } else {
            out.append(", ");
        }
        emit_fragment(table, fragments[k], out);
        assert(out@ =~= head + render_fragments(table@, fragments@, k + 1));
        k += 1;
    }
    out.append(" }\n");
    assert(out@ =~= old(out)@ + render_declaration(table@, d@));
}

impl Unit {
    /// A unit without data and without functions.
    pub fn new() -> (u: Unit)
        ensures
            u@ == (UnitView {
                decls: Seq::<DeclarationView>::empty(),
                funcs: Seq::<FunctionView>::empty(),
            }),
    {
        let u = Unit { decls: Vec::new(), funcs: Vec::new() };
        assert(u@.decls =~= Seq::<DeclarationView>::empty());
        assert(u@.funcs =~= Seq::<FunctionView>::empty());
        u
    }

    /// Adds `d` after the declarations added before.
    pub fn add_declaration(&mut self, d: Declaration)
        ensures
            final(self)@ == (UnitView { decls: old(self)@.decls.push(d@), ..old(self)@ }),
    {
        self.decls.push(d);
        assert(self@.decls =~= old(self)@.decls.push(d@));
    }

    /// Adds `f` after the functions added before.
    pub fn add_function(&mut self, f: Function)
        ensures
            final(self)@ == (UnitView { funcs: old(self)@.funcs.push(f@), ..old(self)@ }),
    {
        self.funcs.push(f);
        assert(self@.funcs =~= old(self)@.funcs.push(f@));
    }

    /// The declarations, in the order they were added.
    pub fn declarations(&self) -> (ds: &Vec<Declaration>)
        ensures
            declaration_views(ds@) == self@.decls,
    {
        &self.decls
    }

    /// The functions, in the order they were added.
    pub fn functions(&self) -> (fs: &Vec<Function>)
        ensures
            function_views(fs@) == self@.funcs,
    {
        &self.funcs
    }
}

/// Whether every function of `unit` is finalized.
pub fn unit_is_finalized(unit: &Unit) -> (b: bool)
    ensures
        b == all_finalized(unit@),
{
    let funcs = unit.functions();
    let n = funcs.len();
    let mut k: usize = 0;
    while k < n
        invariant
            k <= n,
            n == funcs@.len(),
            function_views(funcs@) == unit@.funcs,
            forall|j: int| 0 <= j < k ==> (#[trigger] unit@.funcs[j]).status is Finalized,
        decreases n - k,
    {
        assert(funcs@[k as int]@ == unit@.funcs[k as int]);
        if !funcs[k].is_finalized() {
            return false;
        }
        k += 1;
    }
    true
}

/// Whether every name in `unit` was issued by `table`.
pub fn unit_is_known(table: &SymbolTable, unit: &Unit) -> (b: bool)
    ensures
        b == unit_known(table@, unit@),
{
    let decls = unit.declarations();
    let nd = decls.len();
    let mut k: usize = 0;
    while k < nd
        invariant
            k <= nd,
            nd == decls@.len(),
            declaration_views(decls@) == unit@.decls,
            forall|j: int| 0 <= j < k ==> declaration_known(table@, #[trigger] unit@.decls[j]),
        decreases nd - k,
    {
        assert(decls@[k as int]@ == unit@.decls[k as int]);
        if !declaration_is_known(table, &decls[k]) {
            return false;
        }
        k += 1;
    }
    let funcs = unit.functions();
    let nf = funcs.len();
    let mut i: usize = 0;
    while i < nf
        invariant
            i <= nf,
            nf == funcs@.len(),
            function_views(funcs@) == unit@.funcs,
            forall|j: int| 0 <= j < nd ==> declaration_known(table@, #[trigger] unit@.decls[j]),
            nd == unit@.decls.len(),
            forall|j: int| 0 <= j < i ==> function_known(table@, #[trigger] unit@.funcs[j]),
        decreases nf - i,
    {
        assert(funcs@[i as int]@ == unit@.funcs[i as int]);
        if !function_is_known(table, &funcs[i]) {
            return false;
        }
        i += 1;
    }
    true
}

/// Whether every representation in `unit` has a layout.
pub fn unit_is_laid_out(unit: &Unit) -> (b: bool)
    ensures
        b == unit_laid_out(unit@),
{
    let decls = unit.declarations();
    let nd = decls.len();
    let mut k: usize = 0;
    while k < nd
        invariant
            k <= nd,
            nd == decls@.len(),
            declaration_views(decls@) == unit@.decls,
            forall|j: int| 0 <= j < k ==> declaration_laid_out(#[trigger] unit@.decls[j]),
        decreases nd - k,
    {
        assert(decls@[k as int]@ == unit@.decls[k as int]);
        if !declaration_is_laid_out(&decls[k]) {
            return false;
        }
        k += 1;
    }
    let funcs = unit.functions();
    let nf = funcs.len();
    let mut i: usize = 0;
    while i < nf
        invariant
            i <= nf,
            nf == funcs@.len(),
            function_views(funcs@) == unit@.funcs,
            forall|j: int| 0 <= j < nd ==> declaration_laid_out(#[trigger] unit@.decls[j]),
            nd == unit@.decls.len(),
            forall|j: int| 0 <= j < i ==> function_laid_out(#[trigger] unit@.funcs[j]),
        decreases nf - i,
    {
        assert(funcs@[i as int]@ == unit@.funcs[i as int]);
        if !function_is_laid_out(&funcs[i]) {
            return false;
        }
        i += 1;
    }
    true
}

/// The text of `unit`: every declaration in the order added, then every
/// function in the order added.
///
/// Yields no text where a function of the unit is not finalized; where all
/// are and the unit holds a name that `table` did not issue; or where
/// neither holds and the unit holds a representation that has no layout.
pub fn emit_unit(table: &SymbolTable, unit: &Unit) -> (r: Result<
    String,
    EmissionContractViolation,
>)
    ensures
        emitted(table@, unit@, r),
{
    if !unit_is_finalized(unit) {
        return Err(EmissionContractViolation::UnfinalizedFunction);
    }
    if !unit_is_known(table, unit) {
        return Err(EmissionContractViolation::ForeignName);
    }
    if !unit_is_laid_out(unit) {
        return Err(EmissionContractViolation::IllFormedRepr);
    }
    let mut out = String::new();
    let decls = unit.declarations();
    let nd = decls.len();
    let mut k: usize = 0;
    assert(out@ =~= render_declarations(table@, unit@.decls, 0));
    while k < nd
        invariant
            k <= nd,
            nd == decls@.len(),
            declaration_views(decls@) == unit@.decls,
            unit_known(table@, unit@),
            unit_laid_out(unit@),
            out@ == render_declarations(table@, unit@.decls, k as int),
        decreases nd - k,
    {
        assert(decls@[k as int]@ == unit@.decls[k as int]);
        emit_data(table, &decls[k], &mut out);
        k += 1;
    }
    let ghost head = out@;
    let funcs = unit.functions();
    let nf = funcs.len();
    let mut i: usize = 0;
    assert(out@ =~= head + render_functions(table@, unit@.funcs, 0));
    while i < nf
        invariant
            i <= nf,
            nf == funcs@.len(),
            function_views(funcs@) == unit@.funcs,
            unit_known(table@, unit@),
            unit_laid_out(unit@),
            all_finalized(unit@),
            out@ == head + render_functions(table@, unit@.funcs, i as int),
        decreases nf - i,
    {
        assert(funcs@[i as int]@ == unit@.funcs[i as int]);
        emit_func(table, &funcs[i], &mut out);
        assert(out@ =~= head + render_functions(table@, unit@.funcs, i + 1));
        i += 1;
    }
    Ok(out)
}

} // verus!
