//! Functions: a parameter list, a return representation and blocks, and
//! the finalization that makes a function eligible for emission.
//!
//! A function starts open. Blocks are appended in order; the first one is
//! the entry. `finalize` checks the body, and the function is `Finalized`
//! or `Failed` from then on and takes no more blocks. Finalizing again
//! repeats the same checks on the same body and reports the same.
use vstd::prelude::*;
use crate::block::{block_views, Block, BlockView};
use crate::cfg::{build_cfg, cfg, has_block, is_walk, target_at};
use crate::finalize::{
    check_reads, check_returns, check_targets, flagged, lemma_no_dangling,
    lemma_no_return_mismatch, lemma_no_unresolved, return_agrees, unreachable_blocks, violations,
    FinalizeError,
};
use crate::layout::Repr;
use crate::name::Name;
use crate::ssa::{defined_at, defines_name, definition_reaches, resolves_to, DefSite};
use crate::value::Value;

verus! {

/// A parameter: a temporary that is defined on entry to the function.
#[derive(Clone, Copy, Debug, PartialEq, Eq, Structural, Hash)]
pub struct Param {
    pub name: Name,
    pub repr: Repr,
}

/// Where a function stands in its life.
#[derive(Clone, Copy, Debug, PartialEq, Eq, Structural, Hash)]
pub enum Status {
    /// Under construction: blocks may be appended.
    Open,
    /// Checked and found well-formed: frozen, and eligible for emission.
    Finalized,
    /// Checked and found ill-formed: frozen, and never emitted.
    Failed,
}

/// A function of the unit.
#[derive(Debug)]
pub struct Function {
    name: Name,
    params: Vec<Param>,
    ret: Option<Repr>,
    blocks: Vec<Block>,
    status: Status,
}

/// What a function is, as plain data.
pub struct FunctionView {
    pub name: Name,
    pub params: Seq<Param>,
    pub ret: Option<Repr>,
    pub blocks: Seq<BlockView>,
    pub status: Status,
}

impl FunctionView {
    /// Whether finalization holds nothing against the body.
    pub open spec fn well_formed(self) -> bool {
        violations(self.params, self.ret, self.blocks).len() == 0
    }

    /// The function after finalization.
    pub open spec fn finalized(self) -> FunctionView {
        FunctionView {
            status: if self.well_formed() {
                Status::Finalized
            } else {
                Status::Failed
            },
            ..self
        }
    }

    /// What finalization reports: the flagged blocks of a well-formed body,
    /// or everything that is held against an ill-formed one.
    pub open spec fn report(self) -> Result<Seq<usize>, Seq<FinalizeError>> {
        if self.well_formed() {
            Ok(flagged(cfg(self.blocks), self.blocks.len() as int))
        } else {
            Err(violations(self.params, self.ret, self.blocks))
        }
    }
}

impl View for Function {
    type V = FunctionView;

    closed spec fn view(&self) -> FunctionView {
        FunctionView {
            name: self.name,
            params: self.params@,
            ret: self.ret,
            blocks: block_views(self.blocks@),
            status: self.status,
        }
    }
}

/// Finalization is idempotent: a second finalization leaves the function as
/// the first left it and reports what the first reported.
pub proof fn lemma_finalize_idempotent(f: FunctionView)
    ensures
        f.finalized().finalized() == f.finalized(),
        f.finalized().report() == f.report(),
{
}

/// In a well-formed function every jump target names a block of the
/// function.
pub proof fn lemma_targets_resolve(f: FunctionView, b: int, k: int)
    requires
        f.well_formed(),
        0 <= b < f.blocks.len(),
        0 <= k < f.blocks[b].jump.targets().len(),
    ensures
        has_block(f.blocks, f.blocks[b].jump.targets()[k]),
{
    lemma_no_dangling(f.blocks, f.blocks.len() as int, b, k);
}

/// In a well-formed function every return agrees with the return
/// representation of the function: a returned value has exactly that
/// representation, and nothing is returned exactly where the function has
/// none.
pub proof fn lemma_returns_agree(f: FunctionView, b: int)
    requires
        f.well_formed(),
        0 <= b < f.blocks.len(),
    ensures
        return_agrees(f.ret, f.blocks[b].jump),
{
    lemma_no_return_mismatch(f.ret, f.blocks, f.blocks.len() as int, b);
}

/// In a well-formed function every read of a temporary has exactly one
/// reaching definition on every control path from the entry: one definition
/// of the temporary has been passed when the path arrives at the read, and
/// no other definition of that name has.
pub proof fn lemma_one_reaching_definition(f: FunctionView, b: int, i: int, k: int, p: Seq<int>)
    requires
        f.well_formed(),
        0 <= b < f.blocks.len(),
        0 <= i <= f.blocks[b].insts.len(),
        0 <= k < f.blocks[b].reads(i).len(),
        f.blocks[b].reads(i)[k] is Temporary,
        is_walk(cfg(f.blocks), p),
        p.last() == b,
    ensures
        exists|s: DefSite|
            {
                &&& defined_at(f.params, f.blocks, s) == Some(f.blocks[b].reads(i)[k])
                &&& definition_reaches(p, s, i)
                &&& forall|other: DefSite| #[trigger]
                    defines_name(
                        f.params,
                        f.blocks,
                        other,
                        f.blocks[b].reads(i)[k].spec_name()->0,
                    ) ==> other == s
            },
{
    let v = f.blocks[b].reads(i)[k];
    lemma_no_unresolved(f.params, f.blocks, f.blocks.len() as int, b, i, k);
    let s = choose|s: DefSite| resolves_to(f.params, f.blocks, b, i, v, s);
    assert(definition_reaches(p, s, i));
}

impl Function {
    /// The invariant of the type: a function that counts as finalized is
    /// well-formed.
    pub open spec fn inv(&self) -> bool {
        self@.status is Finalized ==> self@.well_formed()
    }

    /// An open function without blocks.
    pub fn new(name: Name, params: Vec<Param>, ret: Option<Repr>) -> (f: Function)
        ensures
            f.inv(),
            f@ == (FunctionView {
                name,
                params: params@,
                ret,
                blocks: Seq::<BlockView>::empty(),
                status: Status::Open,
            }),
    {
        let f = Function { name, params, ret, blocks: Vec::new(), status: Status::Open };
        assert(f@.blocks =~= Seq::<BlockView>::empty());
        f
    }

    /// Appends `block` after the blocks appended before, if the function is
    /// still open. Tells whether the block was taken.
    pub fn append_block(&mut self, block: Block) -> (taken: bool)
        requires
            old(self).inv(),
        ensures
            final(self).inv(),
            taken == (old(self)@.status is Open),
            taken ==> final(self)@ == (FunctionView {
                blocks: old(self)@.blocks.push(block@),
                ..old(self)@
            }),
            !taken ==> final(self)@ == old(self)@,
    {
        match self.status {
            Status::Open => {
                self.blocks.push(block);
                assert(self@.blocks =~= old(self)@.blocks.push(block@));
                true
            },
            _ => false,
        }
    }

    /// Checks the body and freezes the function.
    ///
    /// The checks are: every jump target names a block; every return agrees
    /// with the return representation; every read of a temporary has its
    /// one definition before it on every path from the entry.
    ///
    /// A body without fault makes the function `Finalized`; the result then
    /// lists the blocks that no jump leads to, the entry left out. They are
    /// kept. Any fault makes the function `Failed`; the result then holds
    /// every fault.
    pub fn finalize(&mut self) -> (r: Result<Vec<usize>, Vec<FinalizeError>>)
        requires
            old(self).inv(),
        ensures
            final(self).inv(),
            final(self)@ == old(self)@.finalized(),
            match r {
                Ok(unreached) => old(self)@.report() == Ok::<Seq<usize>, Seq<FinalizeError>>(
                    unreached@,
                ),
                Err(errors) => old(self)@.report() == Err::<Seq<usize>, Seq<FinalizeError>>(
                    errors@,
                ),
            },
    {
        let g = build_cfg(&self.blocks);
        let mut errors: Vec<FinalizeError> = Vec::new();
        check_targets(&self.blocks, &g, &mut errors);
        check_returns(&self.blocks, self.ret, &mut errors);
        check_reads(&self.params, &self.blocks, &g, &mut errors);
        assert(errors@ =~= violations(self@.params, self@.ret, self@.blocks));
        if errors.len() == 0 {
            self.status = Status::Finalized;
            Ok(unreachable_blocks(&g))
        } else {
            self.status = Status::Failed;
            Err(errors)
        }
    }

    /// The name of the function.
    pub fn name(&self) -> (n: Name)
        ensures
            n == self@.name,
    {
        self.name
    }

    /// The representation of the result, if there is one.
    pub fn ret(&self) -> (r: Option<Repr>)
        ensures
            r == self@.ret,
    {
        self.ret
    }

    /// Where the function stands.
    pub fn status(&self) -> (s: Status)
        ensures
            s == self@.status,
    {
        self.status
    }

    /// Whether the function has been finalized with success.
    pub fn is_finalized(&self) -> (b: bool)
        ensures
            b == (self@.status is Finalized),
    {
        match self.status {
            Status::Finalized => true,
            _ => false,
        }
    }

    /// The parameters, in order.
    pub fn params(&self) -> (params: &Vec<Param>)
        ensures
            params@ == self@.params,
    {
        &self.params
    }

    /// The blocks, in order; the first is the entry.
    pub fn blocks(&self) -> (blocks: &Vec<Block>)
        ensures
            block_views(blocks@) == self@.blocks,
    {
        &self.blocks
    }
}

} // verus!
