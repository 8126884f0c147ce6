//! The checks that finalization makes on the body of a function, and what
//! it reports.
//!
//! Violations are collected, not reported one at a time: first every jump
//! target that names no block, block by block, then every return that does
//! not agree with the return representation of the function, then every
//! read of a temporary that is not resolved, in the order the reads stand
//! in the function.
use vstd::prelude::*;
use crate::block::{block_views, Block, BlockView, Jump};
use crate::cfg::{
    avoidance_table, build_cfg, cfg, edge, has_block, lemma_label_index, no_incoming,
    reaches_avoiding, target_at, Successors,
};
use crate::function::Param;
use crate::layout::Repr;
use crate::name::Name;
use crate::ssa::{definitions, is_definition_list, read_resolved, resolved, Definition};
use crate::value::Value;

verus! {

/// A structural fault that finalization found in a function.
#[derive(Clone, Copy, Debug, PartialEq, Eq, Structural, Hash)]
pub enum FinalizeError {
    /// The jump of block `block` names `target`, and no block of the
    /// function carries that label.
    DanglingTarget { block: usize, target: Name },
    /// The jump of block `block` returns a value whose representation is
    /// not the return representation of the function, returns a value from
    /// a function that has none, or returns none from a function that has
    /// one.
    ReturnMismatch { block: usize },
    /// Position `index` of block `block` reads the temporary `temp`, and
    /// the function has no single definition of it that every path to the
    /// read has passed. The position after the last instruction is that of
    /// the jump.
    UnresolvedSsaUse { block: usize, index: usize, temp: Name },
}

/// The fault of the target at position `k` of the jump of block `b`.
pub open spec fn target_violation(blocks: Seq<BlockView>, b: int, k: int) -> Seq<FinalizeError> {
    match target_at(blocks, b, k) {
        Some(t) => if has_block(blocks, t) {
            seq![]
        } else {
            seq![FinalizeError::DanglingTarget { block: b as usize, target: t }]
        },
        None => seq![],
    }
}

/// The dangling targets of the first `upto` blocks.
pub open spec fn dangling_targets(blocks: Seq<BlockView>, upto: int) -> Seq<FinalizeError>
    decreases upto,
{
    if upto <= 0 {
        seq![]
    } else {
        dangling_targets(blocks, upto - 1) + target_violation(blocks, upto - 1, 0)
            + target_violation(blocks, upto - 1, 1)
    }
}

/// Whether the jump `j` agrees with the return representation `ret`: a
/// return hands back a value of exactly that representation, or none where
/// the function has none. Any other jump agrees.
pub open spec fn return_agrees(ret: Option<Repr>, j: Jump) -> bool {
    match j {
        Jump::Ret(Some(v)) => ret == Some(v.spec_repr()),
        Jump::Ret(None) => ret is None,
        _ => true,
    }
}

/// The fault of the return of block `b`.
pub open spec fn return_violation(ret: Option<Repr>, blocks: Seq<BlockView>, b: int) -> Seq<
    FinalizeError,
> {
    if return_agrees(ret, blocks[b].jump) {
        seq![]
    } else {
        seq![FinalizeError::ReturnMismatch { block: b as usize }]
    }
}

/// The returns of the first `upto` blocks that do not agree with `ret`.
pub open spec fn return_mismatches(ret: Option<Repr>, blocks: Seq<BlockView>, upto: int) -> Seq<
    FinalizeError,
>
    decreases upto,
{
    if upto <= 0 {
        seq![]
    } else {
        return_mismatches(ret, blocks, upto - 1) + return_violation(ret, blocks, upto - 1)
    }
}

/// The fault of the read of `v` at position `i` of block `b`.
pub open spec fn read_violation(
    params: Seq<Param>,
    blocks: Seq<BlockView>,
    b: int,
    i: int,
    v: Value,
) -> Seq<FinalizeError> {
    if resolved(params, blocks, b, i, v) {
        seq![]
    } else {
        seq![
            FinalizeError::UnresolvedSsaUse {
                block: b as usize,
                index: i as usize,
                temp: v.spec_name()->0,
            },
        ]
    }
}

/// The unresolved reads among the first `upto` values read at position `i`
/// of block `b`.
pub open spec fn site_violations(
    params: Seq<Param>,
    blocks: Seq<BlockView>,
    b: int,
    i: int,
    upto: int,
) -> Seq<FinalizeError>
    decreases upto,
{
    if upto <= 0 {
        seq![]
    } else {
        site_violations(params, blocks, b, i, upto - 1) + read_violation(
            params,
            blocks,
            b,
            i,
            blocks[b].reads(i)[upto - 1],
        )
    }
}

/// The unresolved reads at the first `upto` positions of block `b`.
pub open spec fn block_violations(params: Seq<Param>, blocks: Seq<BlockView>, b: int, upto: int)
    -> Seq<FinalizeError>
    decreases upto,
{
    if upto <= 0 {
        seq![]
    } else {
        block_violations(params, blocks, b, upto - 1) + site_violations(
            params,
            blocks,
            b,
            upto - 1,
            blocks[b].reads(upto - 1).len() as int,
        )
    }
}

/// The unresolved reads of the first `upto` blocks.
pub open spec fn unresolved_uses(params: Seq<Param>, blocks: Seq<BlockView>, upto: int) -> Seq<
    FinalizeError,
>
    decreases upto,
{
    if upto <= 0 {
        seq![]
    } else {
        unresolved_uses(params, blocks, upto - 1) + block_violations(
            params,
            blocks,
            upto - 1,
            (blocks[upto - 1].insts.len() + 1) as int,
        )
    }
}

/// Everything that finalization holds against a function body.
pub open spec fn violations(params: Seq<Param>, ret: Option<Repr>, blocks: Seq<BlockView>) -> Seq<
    FinalizeError,
> {
    dangling_targets(blocks, blocks.len() as int) + return_mismatches(
        ret,
        blocks,
        blocks.len() as int,
    ) + unresolved_uses(params, blocks, blocks.len() as int)
}

/// Among the first `upto` blocks, those without an incoming jump that are
/// not the entry.
pub open spec fn flagged(g: Seq<Successors>, upto: int) -> Seq<usize>
    decreases upto,
{
    if upto <= 0 {
        seq![]
    } else {
        flagged(g, upto - 1) + if no_incoming(g, upto - 1) {
            seq![(upto - 1) as usize]
        } else {
            seq![]
        }
    }
}

/// Whether some block before `upto` has an edge to `b`.
pub open spec fn entered_from_below(g: Seq<Successors>, upto: int, b: int) -> bool {
    exists|a: int| 0 <= a < upto && edge(g, a, b)
}

/// Without a dangling target among the first `upto` blocks, every target of
/// these blocks names a block.
pub proof fn lemma_no_dangling(blocks: Seq<BlockView>, upto: int, b: int, k: int)
    requires
        dangling_targets(blocks, upto).len() == 0,
        0 <= b < upto,
    ensures
        target_at(blocks, b, k) matches Some(t) ==> has_block(blocks, t),
    decreases upto,
{
    if b < upto - 1 {
        lemma_no_dangling(blocks, upto - 1, b, k);
    } else {
        assert(target_violation(blocks, b, 0).len() == 0);
        assert(target_violation(blocks, b, 1).len() == 0);
        assert(blocks[b].jump.targets().len() <= 2);
    }
}

/// Without a return fault among the first `upto` blocks, the jump of each
/// of these blocks agrees with the return representation.
pub proof fn lemma_no_return_mismatch(
    ret: Option<Repr>,
    blocks: Seq<BlockView>,
    upto: int,
    b: int,
)
    requires
        return_mismatches(ret, blocks, upto).len() == 0,
        0 <= b < upto,
    ensures
        return_agrees(ret, blocks[b].jump),
    decreases upto,
{
    if b < upto - 1 {
        lemma_no_return_mismatch(ret, blocks, upto - 1, b);
    } else {
        assert(return_violation(ret, blocks, b).len() == 0);
    }
}

proof fn lemma_site_resolved(
    params: Seq<Param>,
    blocks: Seq<BlockView>,
    b: int,
    i: int,
    upto: int,
    k: int,
)
    requires
        site_violations(params, blocks, b, i, upto).len() == 0,
        0 <= k < upto,
    ensures
        resolved(params, blocks, b, i, blocks[b].reads(i)[k]),
    decreases upto,
{
    if k < upto - 1 {
        lemma_site_resolved(params, blocks, b, i, upto - 1, k);
    } else {
        assert(read_violation(params, blocks, b, i, blocks[b].reads(i)[k]).len() == 0);
    }
}

proof fn lemma_block_resolved(
    params: Seq<Param>,
    blocks: Seq<BlockView>,
    b: int,
    upto: int,
    i: int,
    k: int,
)
    requires
        block_violations(params, blocks, b, upto).len() == 0,
        0 <= i < upto,
        0 <= k < blocks[b].reads(i).len(),
    ensures
        resolved(params, blocks, b, i, blocks[b].reads(i)[k]),
    decreases upto,
{
    if i < upto - 1 {
        lemma_block_resolved(params, blocks, b, upto - 1, i, k);
    } else {
        lemma_site_resolved(params, blocks, b, i, blocks[b].reads(i).len() as int, k);
    }
}

/// Without an unresolved read among the first `upto` blocks, every read in
/// these blocks is resolved.
pub proof fn lemma_no_unresolved(
    params: Seq<Param>,
    blocks: Seq<BlockView>,
    upto: int,
    b: int,
    i: int,
    k: int,
)
    requires
        unresolved_uses(params, blocks, upto).len() == 0,
        0 <= b < upto,
        0 <= i <= blocks[b].insts.len(),
        0 <= k < blocks[b].reads(i).len(),
    ensures
        resolved(params, blocks, b, i, blocks[b].reads(i)[k]),
    decreases upto,
{
    if b < upto - 1 {
        lemma_no_unresolved(params, blocks, upto - 1, b, i, k);
    } else {
        lemma_block_resolved(params, blocks, b, (blocks[b].insts.len() + 1) as int, i, k);
    }
}

fn check_target(
    target: Option<Name>,
    successor: Option<usize>,
    b: usize,
    errors: &mut Vec<FinalizeError>,
    Ghost(blocks): Ghost<Seq<BlockView>>,
    Ghost(k): Ghost<int>,
)
    requires
        b < blocks.len(),
        target == target_at(blocks, b as int, k),
        successor == crate::cfg::resolve_target(blocks, target),
    ensures
        final(errors)@ == old(errors)@ + target_violation(blocks, b as int, k),
{
    match target {
        Some(t) => {
            proof {
                lemma_label_index(blocks, t);
            }
            if successor.is_none() {
                errors.push(FinalizeError::DanglingTarget { block: b, target: t });
                assert(errors@ =~= old(errors)@ + target_violation(blocks, b as int, k));
            } else {
                assert(errors@ =~= old(errors)@ + target_violation(blocks, b as int, k));
            }
        },
        None => {
            assert(errors@ =~= old(errors)@ + target_violation(blocks, b as int, k));
        },
    }
}

/// Appends to `errors` every jump target of `blocks` that names no block.
pub(crate) fn check_targets(blocks: &Vec<Block>, g: &Vec<Successors>, errors: &mut Vec<FinalizeError>)
    requires
        g@ == cfg(block_views(blocks@)),
    ensures
        final(errors)@ == old(errors)@ + dangling_targets(
            block_views(blocks@),
            blocks@.len() as int,
        ),
{
    let ghost views = block_views(blocks@);
    let n = blocks.len();
    let mut b: usize = 0;
    assert(errors@ =~= old(errors)@ + dangling_targets(views, 0));
    while b < n
        invariant
            b <= n,
            n == blocks@.len(),
            views == block_views(blocks@),
            g@ == cfg(views),
            errors@ == old(errors)@ + dangling_targets(views, b as int),
        decreases n - b,
    {
        let jump = blocks[b].jump();
        let ghost before = errors@;
        check_target(jump.first_target(), g[b].first, b, errors, Ghost(views), Ghost(0));
        check_target(jump.second_target(), g[b].second, b, errors, Ghost(views), Ghost(1));
        assert(errors@ =~= old(errors)@ + dangling_targets(views, b + 1));
        b += 1;
    }
}

/// Appends to `errors` every return of `blocks` that does not agree with
/// the return representation `ret`.
pub(crate) fn check_returns(
    blocks: &Vec<Block>,
    ret: Option<Repr>,
    errors: &mut Vec<FinalizeError>,
)
    ensures
        final(errors)@ == old(errors)@ + return_mismatches(
            ret,
            block_views(blocks@),
            blocks@.len() as int,
        ),
{
    let ghost views = block_views(blocks@);
    let n = blocks.len();
    let mut b: usize = 0;
    assert(errors@ =~= old(errors)@ + return_mismatches(ret, views, 0));
    while b < n
        invariant
            b <= n,
            n == blocks@.len(),
            views == block_views(blocks@),
            errors@ == old(errors)@ + return_mismatches(ret, views, b as int),
        decreases n - b,
    {
        let agrees = match blocks[b].jump() {
            Jump::Ret(Some(v)) => match ret {
                Some(r) => v.repr() == r,
                None => false,
            },
            Jump::Ret(None) => ret.is_none(),
            _ => true,
        };
        if !agrees {
            errors.push(FinalizeError::ReturnMismatch { block: b });
        }
        assert(errors@ =~= old(errors)@ + return_mismatches(ret, views, b + 1));
        b += 1;
    }
}

fn check_read(
    defs: &Vec<Definition>,
    avoid: &Vec<Vec<bool>>,
    b: usize,
    i: usize,
    v: Value,
    errors: &mut Vec<FinalizeError>,
    Ghost(params): Ghost<Seq<Param>>,
    Ghost(blocks): Ghost<Seq<BlockView>>,
)
    requires
        is_definition_list(params, blocks, defs@),
        b < blocks.len(),
        avoid@.len() == blocks.len(),
        forall|d: int| 0 <= d < blocks.len() ==> (#[trigger] avoid@[d])@.len() == blocks.len(),
        forall|d: int, x: int|
            0 <= d < blocks.len() && 0 <= x < blocks.len() ==> (#[trigger] avoid@[d]@[x]
                <==> reaches_avoiding(cfg(blocks), d, x)),
    ensures
        final(errors)@ == old(errors)@ + read_violation(params, blocks, b as int, i as int, v),
{
    if !read_resolved(defs, avoid, b, i, v, Ghost(params), Ghost(blocks)) {
        match v {
            Value::Temporary(n, _) => {
                errors.push(FinalizeError::UnresolvedSsaUse { block: b, index: i, temp: n });
            },
            _ => {},
        }
    }
    assert(errors@ =~= old(errors)@ + read_violation(params, blocks, b as int, i as int, v));
}

fn check_block(
    defs: &Vec<Definition>,
    avoid: &Vec<Vec<bool>>,
    b: usize,
    block: &Block,
    errors: &mut Vec<FinalizeError>,
    Ghost(params): Ghost<Seq<Param>>,
    Ghost(blocks): Ghost<Seq<BlockView>>,
)
    requires
        is_definition_list(params, blocks, defs@),
        b < blocks.len(),
        block@ == blocks[b as int],
        avoid@.len() == blocks.len(),
        forall|d: int| 0 <= d < blocks.len() ==> (#[trigger] avoid@[d])@.len() == blocks.len(),
        forall|d: int, x: int|
            0 <= d < blocks.len() && 0 <= x < blocks.len() ==> (#[trigger] avoid@[d]@[x]
                <==> reaches_avoiding(cfg(blocks), d, x)),
    ensures
        final(errors)@ == old(errors)@ + block_violations(
            params,
            blocks,
            b as int,
            (blocks[b as int].insts.len() + 1) as int,
        ),
{
    let n = block.len();
    let mut i: usize = 0;
    assert(errors@ =~= old(errors)@ + block_violations(params, blocks, b as int, 0));
    while i < n
        invariant
            i <= n,
            n == blocks[b as int].insts.len(),
            is_definition_list(params, blocks, defs@),
            b < blocks.len(),
            block@ == blocks[b as int],
            avoid@.len() == blocks.len(),
            forall|d: int| 0 <= d < blocks.len() ==> (#[trigger] avoid@[d])@.len() == blocks.len(),
            forall|d: int, x: int|
                0 <= d < blocks.len() && 0 <= x < blocks.len() ==> (#[trigger] avoid@[d]@[x]
                    <==> reaches_avoiding(cfg(blocks), d, x)),
            errors@ == old(errors)@ + block_violations(params, blocks, b as int, i as int),
        decreases n - i,
    {
        let operands = block.inst(i).operands();
        let m = operands.len();
        let ghost at_site = errors@;
        let mut k: usize = 0;
        assert(errors@ =~= at_site + site_violations(params, blocks, b as int, i as int, 0));
        while k < m
            invariant
                k <= m,
                i < n,
                n == blocks[b as int].insts.len(),
                m == operands@.len(),
                operands@ == blocks[b as int].reads(i as int),
                is_definition_list(params, blocks, defs@),
                b < blocks.len(),
                avoid@.len() == blocks.len(),
                forall|d: int|
                    0 <= d < blocks.len() ==> (#[trigger] avoid@[d])@.len() == blocks.len(),
                forall|d: int, x: int|
                    0 <= d < blocks.len() && 0 <= x < blocks.len() ==> (#[trigger] avoid@[d]@[x]
                        <==> reaches_avoiding(cfg(blocks), d, x)),
                errors@ == at_site + site_violations(params, blocks, b as int, i as int, k as int),
            decreases m - k,
        {
            check_read(defs, avoid, b, i, operands[k], errors, Ghost(params), Ghost(blocks));
            assert(errors@ =~= at_site + site_violations(
                params,
                blocks,
                b as int,
                i as int,
                k + 1,
            ));
            k += 1;
        }
        assert(errors@ =~= old(errors)@ + block_violations(params, blocks, b as int, i + 1));
        i += 1;
    }
    let ghost at_jump = errors@;
    match block.jump().operand() {
        Some(v) => {
            check_read(defs, avoid, b, n, v, errors, Ghost(params), Ghost(blocks));
            proof {
                let reads = blocks[b as int].reads(n as int);
                assert(reads =~= seq![v]);
                assert(site_violations(params, blocks, b as int, n as int, 0)
                    =~= Seq::<FinalizeError>::empty());
                assert(site_violations(params, blocks, b as int, n as int, 1) =~= read_violation(
                    params,
                    blocks,
                    b as int,
                    n as int,
                    v,
                ));
            }
        },
        None => {
            proof {
                assert(blocks[b as int].reads(n as int) =~= Seq::<Value>::empty());
            }
        },
    }
    assert(errors@ =~= old(errors)@ + block_violations(params, blocks, b as int, n + 1));
}

/// Appends to `errors` every read of a temporary in `blocks` that is not
/// resolved.
pub(crate) fn check_reads(
    params: &Vec<Param>,
    blocks: &Vec<Block>,
    g: &Vec<Successors>,
    errors: &mut Vec<FinalizeError>,
)
    requires
        g@ == cfg(block_views(blocks@)),
    ensures
        final(errors)@ == old(errors)@ + unresolved_uses(
            params@,
            block_views(blocks@),
            blocks@.len() as int,
        ),
{
    let ghost views = block_views(blocks@);
    let defs = definitions(params, blocks);
    let avoid = avoidance_table(g);
    let n = blocks.len();
    let mut b: usize = 0;
    assert(errors@ =~= old(errors)@ + unresolved_uses(params@, views, 0));
    while b < n
        invariant
            b <= n,
            n == blocks@.len(),
            views == block_views(blocks@),
            is_definition_list(params@, views, defs@),
            avoid@.len() == n,
            forall|d: int| 0 <= d < n ==> (#[trigger] avoid@[d])@.len() == n,
            forall|d: int, x: int|
                0 <= d < n && 0 <= x < n ==> (#[trigger] avoid@[d]@[x] <==> reaches_avoiding(
                    cfg(views),
                    d,
                    x,
                )),
            errors@ == old(errors)@ + unresolved_uses(params@, views, b as int),
        decreases n - b,
    {
        check_block(&defs, &avoid, b, &blocks[b], errors, Ghost(params@), Ghost(views));
        assert(errors@ =~= old(errors)@ + unresolved_uses(params@, views, b + 1));
        b += 1;
    }
}

/// The blocks without an incoming jump, the entry left out, in order.
pub fn unreachable_blocks(g: &Vec<Successors>) -> (list: Vec<usize>)
    ensures
        list@ == flagged(g@, g@.len() as int),
{
    let n = g.len();
    let mut entered: Vec<bool> = vec![false; n];
    let mut a: usize = 0;
    proof {
        assert forall|b: int| 0 <= b < n implies !entered_from_below(g@, 0, b) by {}
    }
    while a < n
        invariant
            a <= n,
            n == g@.len(),
            entered@.len() == n,
            forall|b: int| 0 <= b < n ==> (#[trigger] entered@[b] <==> entered_from_below(g@, a as int, b)),
        decreases n - a,
    {
        let ghost before = entered@;
        let s = g[a];
        match s.first {
            Some(b) => {
                if b < n {
                    entered.set(b, true);
                }
            },
            None => {},
        }
        match s.second {
            Some(b) => {
                if b < n {
                    entered.set(b, true);
                }
            },
            None => {},
        }
        proof {
            assert forall|b: int| 0 <= b < n implies (#[trigger] entered@[b] <==> entered_from_below(
                g@,
                a + 1,
                b,
            )) by {
                assert(entered@[b] <==> before[b] || edge(g@, a as int, b));
                if entered_from_below(g@, a + 1, b) {
                    let x = choose|x: int| 0 <= x < a + 1 && edge(g@, x, b);
                    if x < a {
                        assert(entered_from_below(g@, a as int, b));
                    }
                }
                if before[b] {
                    let x = choose|x: int| 0 <= x < a && edge(g@, x, b);
                    assert(0 <= x < a + 1 && edge(g@, x, b));
                }
                if edge(g@, a as int, b) {
                    assert(0 <= a < a + 1 && edge(g@, a as int, b));
                }
            }
        }
        a += 1;
    }
    let mut list: Vec<usize> = Vec::new();
    let mut b: usize = 0;
    while b < n
        invariant
            b <= n,
            n == g@.len(),
            entered@.len() == n,
            forall|x: int| 0 <= x < n ==> (#[trigger] entered@[x] <==> entered_from_below(g@, n as int, x)),
            list@ == flagged(g@, b as int),
        decreases n - b,
    {
        proof {
            if entered@[b as int] {
                let x = choose|x: int| 0 <= x < n && edge(g@, x, b as int);
                assert(edge(g@, x, b as int));
            } else {
                assert forall|x: int| !edge(g@, x, b as int) by {
                    if edge(g@, x, b as int) {
                        assert(entered_from_below(g@, n as int, b as int));
                    }
                }
            }
        }
        if b != 0 && !entered[b] {
            list.push(b);
        }
        assert(list@ =~= flagged(g@, b + 1));
        b += 1;
    }
    list
}

} // verus!
