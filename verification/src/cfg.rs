//! The control-flow graph of a function: which block each jump target
//! names, the walks that start at the entry block, and which blocks can be
//! reached without passing through a given block.
use vstd::prelude::*;
use crate::block::{block_views, Block, BlockView};
use crate::name::Name;

verus! {

/// The blocks that control may continue at after one block, by position in
/// the function. A target that names no block gives no successor.
#[derive(Clone, Copy, Debug, PartialEq, Eq, Structural)]
pub struct Successors {
    pub first: Option<usize>,
    pub second: Option<usize>,
}

/// Whether some block carries `label`.
pub open spec fn has_block(blocks: Seq<BlockView>, label: Name) -> bool {
    exists|i: int| 0 <= i < blocks.len() && blocks[i].label == label
}

/// Whether `i` is the first block that carries `label`.
pub open spec fn first_labelled(blocks: Seq<BlockView>, label: Name, i: int) -> bool {
    &&& 0 <= i < blocks.len()
    &&& blocks[i].label == label
    &&& forall|j: int| 0 <= j < i ==> blocks[j].label != label
}

/// The position of the block that `label` names: the first that carries it.
pub open spec fn label_index(blocks: Seq<BlockView>, label: Name) -> Option<int> {
    if exists|i: int| first_labelled(blocks, label, i) {
        Some(choose|i: int| first_labelled(blocks, label, i))
    } else {
        None
    }
}

/// The first block that carries a label is the block the label names.
pub proof fn lemma_label_index_first(blocks: Seq<BlockView>, label: Name, i: int)
    requires
        first_labelled(blocks, label, i),
    ensures
        label_index(blocks, label) == Some(i),
{
    let c = choose|c: int| first_labelled(blocks, label, c);
    assert(first_labelled(blocks, label, c));
    if c < i {
        assert(blocks[c].label != label);
    }
    if i < c {
        assert(blocks[i].label != label);
    }
}

/// A label that some block carries has a first block that carries it.
pub proof fn lemma_first_labelled_exists(blocks: Seq<BlockView>, label: Name, j: int)
    requires
        0 <= j < blocks.len(),
        blocks[j].label == label,
    ensures
        exists|i: int| first_labelled(blocks, label, i),
    decreases j,
{
    if forall|k: int| 0 <= k < j ==> blocks[k].label != label {
        assert(first_labelled(blocks, label, j));
    } else {
        let k = choose|k: int| 0 <= k < j && blocks[k].label == label;
        lemma_first_labelled_exists(blocks, label, k);
    }
}

/// A label names a block exactly when some block carries it, and the block
/// it names carries it.
pub proof fn lemma_label_index(blocks: Seq<BlockView>, label: Name)
    ensures
        label_index(blocks, label) is Some <==> has_block(blocks, label),
        label_index(blocks, label) matches Some(i) ==> first_labelled(blocks, label, i),
{
    if has_block(blocks, label) {
        let j = choose|j: int| 0 <= j < blocks.len() && blocks[j].label == label;
        lemma_first_labelled_exists(blocks, label, j);
    }
    if label_index(blocks, label) is Some {
        let i = choose|i: int| first_labelled(blocks, label, i);
        assert(first_labelled(blocks, label, i));
    }
}

/// The successor that an optional target gives.
pub open spec fn resolve_target(blocks: Seq<BlockView>, target: Option<Name>) -> Option<usize> {
    match target {
        Some(label) => match label_index(blocks, label) {
            Some(i) => Some(i as usize),
            None => None,
        },
        None => None,
    }
}

/// The target at position `k` of the jump of block `a`, if it has one.
pub open spec fn target_at(blocks: Seq<BlockView>, a: int, k: int) -> Option<Name> {
    if 0 <= k < blocks[a].jump.targets().len() {
        Some(blocks[a].jump.targets()[k])
    } else {
        None
    }
}

/// The successors of block `a`.
pub open spec fn successors_of(blocks: Seq<BlockView>, a: int) -> Successors {
    Successors {
        first: resolve_target(blocks, target_at(blocks, a, 0)),
        second: resolve_target(blocks, target_at(blocks, a, 1)),
    }
}

/// The control-flow graph of `blocks`.
pub open spec fn cfg(blocks: Seq<BlockView>) -> Seq<Successors> {
    Seq::new(blocks.len(), |a: int| successors_of(blocks, a))
}

/// Whether control may pass from block `a` straight to block `b`.
pub open spec fn edge(g: Seq<Successors>, a: int, b: int) -> bool {
    &&& 0 <= a < g.len()
    &&& 0 <= b < g.len()
    &&& (g[a].first == Some(b as usize) || g[a].second == Some(b as usize))
}

/// Whether `p` is a control path: it starts at the entry block and each
/// step follows an edge.
pub open spec fn is_walk(g: Seq<Successors>, p: Seq<int>) -> bool {
    &&& p.len() > 0
    &&& g.len() > 0
    &&& p[0] == 0
    &&& forall|j: int| 0 <= j < p.len() - 1 ==> edge(g, #[trigger] p[j], p[j + 1])
}

/// Whether `p` passes through block `d` before it arrives at its last
/// block.
pub open spec fn passes(p: Seq<int>, d: int) -> bool {
    exists|j: int| 0 <= j < p.len() - 1 && p[j] == d
}

/// Whether some control path arrives at `b` without passing through `d`
/// before.
pub open spec fn reaches_avoiding(g: Seq<Successors>, d: int, b: int) -> bool {
    exists|p: Seq<int>| #[trigger] is_walk(g, p) && p.last() == b && !passes(p, d)
}

/// Whether every control path that arrives at `b` has passed through `d`
/// before.
pub open spec fn dominates(g: Seq<Successors>, d: int, b: int) -> bool {
    forall|p: Seq<int>| #[trigger] is_walk(g, p) && p.last() == b ==> passes(p, d)
}

/// Whether block `b` has no incoming jump and is not the entry.
pub open spec fn no_incoming(g: Seq<Successors>, b: int) -> bool {
    b != 0 && forall|a: int| !edge(g, a, b)
}

/// Domination is the absence of a path that avoids the dominator.
pub proof fn lemma_dominates_iff(g: Seq<Successors>, d: int, b: int)
    ensures
        dominates(g, d, b) <==> !reaches_avoiding(g, d, b),
{
    if !reaches_avoiding(g, d, b) {
        assert forall|p: Seq<int>| #[trigger] is_walk(g, p) && p.last() == b implies passes(
            p,
            d,
        ) by {}
    }
    if reaches_avoiding(g, d, b) {
        let p = choose|p: Seq<int>| #[trigger] is_walk(g, p) && p.last() == b && !passes(p, d);
        assert(is_walk(g, p));
    }
}

/// A path that avoids `d` and ends in a block other than `d` stays one when
/// it follows one more edge.
proof fn lemma_extend_walk(g: Seq<Successors>, d: int, a: int, b: int)
    requires
        reaches_avoiding(g, d, a),
        a != d,
        edge(g, a, b),
    ensures
        reaches_avoiding(g, d, b),
{
    let p = choose|p: Seq<int>| #[trigger] is_walk(g, p) && p.last() == a && !passes(p, d);
    let q = p.push(b);
    assert forall|j: int| 0 <= j < q.len() - 1 implies edge(g, #[trigger] q[j], q[j + 1]) by {
        if j < p.len() - 1 {
            assert(q[j] == p[j] && q[j + 1] == p[j + 1]);
        }
    }
    assert(is_walk(g, q));
    if passes(q, d) {
        let j = choose|j: int| 0 <= j < q.len() - 1 && q[j] == d;
        if j < p.len() - 1 {
            assert(p[j] == d);
        }
    }
}

/// The entry block is reached by the path that holds nothing else.
proof fn lemma_entry_reached(g: Seq<Successors>, d: int)
    requires
        g.len() > 0,
    ensures
        reaches_avoiding(g, d, 0),
{
    let p = seq![0int];
    assert(is_walk(g, p));
    assert(p.last() == 0);
}

/// A set of blocks that holds the entry and, with each of its blocks other
/// than `d`, that block's successors, holds every block that a path
/// avoiding `d` arrives at.
proof fn lemma_closed_holds_reached(g: Seq<Successors>, d: int, marks: Seq<bool>, p: Seq<int>)
    requires
        marks.len() == g.len(),
        marks[0],
        forall|a: int, b: int|
            0 <= a < g.len() && #[trigger] marks[a] && a != d && #[trigger] edge(g, a, b)
                ==> marks[b],
        is_walk(g, p),
        !passes(p, d),
    ensures
        0 <= p.last() < g.len(),
        marks[p.last()],
    decreases p.len(),
{
    if p.len() > 1 {
        let q = p.drop_last();
        assert forall|j: int| 0 <= j < q.len() - 1 implies edge(g, #[trigger] q[j], q[j + 1]) by {
            assert(q[j] == p[j] && q[j + 1] == p[j + 1]);
        }
        if passes(q, d) {
            let j = choose|j: int| 0 <= j < q.len() - 1 && q[j] == d;
            assert(p[j] == d);
        }
        lemma_closed_holds_reached(g, d, marks, q);
        let a = p[p.len() - 2];
        assert(a == q.last());
        assert(edge(g, p[p.len() - 2], p[p.len() - 2 + 1]));
        if a == d {
            assert(passes(p, d));
        }
    }
}

/// The number of entries of `s` that are false.
pub open spec fn count_false(s: Seq<bool>) -> nat
    decreases s.len(),
{
    if s.len() == 0 {
        0
    } else {
        count_false(s.drop_last()) + if s.last() {
            0nat
        } else {
            1nat
        }
    }
}

proof fn lemma_count_false_set(s: Seq<bool>, i: int)
    requires
        0 <= i < s.len(),
        !s[i],
    ensures
        count_false(s.update(i, true)) + 1 == count_false(s),
    decreases s.len(),
{
    if i == s.len() - 1 {
        assert(s.update(i, true).drop_last() =~= s.drop_last());
    } else {
        assert(s.update(i, true).drop_last() =~= s.drop_last().update(i, true));
        lemma_count_false_set(s.drop_last(), i);
    }
}

/// The position of the first block that carries `label`.
pub fn find_block(blocks: &Vec<Block>, label: Name) -> (found: Option<usize>)
    ensures
        found == resolve_target(block_views(blocks@), Some(label)),
        found is Some <==> has_block(block_views(blocks@), label),
        found matches Some(i) ==> first_labelled(block_views(blocks@), label, i as int),
{
    let ghost views = block_views(blocks@);
    let n = blocks.len();
    let mut i: usize = 0;
    while i < n
        invariant
            i <= n,
            n == blocks@.len(),
            views == block_views(blocks@),
            forall|j: int| 0 <= j < i ==> views[j].label != label,
        decreases n - i,
    {
        if blocks[i].label() == label {
            proof {
                assert(first_labelled(views, label, i as int));
                lemma_label_index_first(views, label, i as int);
                lemma_label_index(views, label);
            }
            return Some(i);
        }
        i += 1;
    }
    proof {
        lemma_label_index(views, label);
    }
    None
}

fn find_target(blocks: &Vec<Block>, target: Option<Name>) -> (found: Option<usize>)
    ensures
        found == resolve_target(block_views(blocks@), target),
        found matches Some(i) ==> i < blocks@.len(),
{
    match target {
        Some(label) => find_block(blocks, label),
        None => None,
    }
}

/// The control-flow graph of `blocks`.
pub fn build_cfg(blocks: &Vec<Block>) -> (g: Vec<Successors>)
    ensures
        g@ == cfg(block_views(blocks@)),
{
    let ghost views = block_views(blocks@);
    let n = blocks.len();
    let mut g: Vec<Successors> = Vec::new();
    let mut a: usize = 0;
    while a < n
        invariant
            a <= n,
            n == blocks@.len(),
            views == block_views(blocks@),
            g@.len() == a,
            forall|k: int| 0 <= k < a ==> g@[k] == successors_of(views, k),
        decreases n - a,
    {
        let jump = blocks[a].jump();
        let first = find_target(blocks, jump.first_target());
        let second = find_target(blocks, jump.second_target());
        g.push(Successors { first, second });
        a += 1;
    }
    assert(g@ =~= cfg(views));
    g
}

fn mark(marks: &mut Vec<bool>, work: &mut Vec<usize>, b: usize)
    requires
        b < old(marks)@.len(),
    ensures
        final(marks)@ == old(marks)@.update(b as int, true),
        final(work)@ == if old(marks)@[b as int] {
            old(work)@
        } else {
            old(work)@.push(b)
        },
        2 * count_false(final(marks)@) + final(work)@.len() == 2 * count_false(old(marks)@) + old(
            work,
        )@.len() - if old(marks)@[b as int] {
            0int
        } else {
            1int
        },
{
    if !marks[b] {
        proof {
            lemma_count_false_set(marks@, b as int);
        }
        marks.set(b, true);
        work.push(b);
    } else {
        assert(marks@ =~= marks@.update(b as int, true));
    }
}

/// For every block, whether some control path arrives at it without passing
/// through block `d` before.
pub fn reachable_avoiding(g: &Vec<Successors>, d: usize) -> (marks: Vec<bool>)
    ensures
        marks@.len() == g@.len(),
        forall|b: int| 0 <= b < g@.len() ==> (#[trigger] marks@[b] <==> reaches_avoiding(g@, d as int, b)),
{
    let n = g.len();
    let mut marks: Vec<bool> = vec![false; n];
    let mut work: Vec<usize> = Vec::new();
    if n == 0 {
        return marks;
    }
    proof {
        lemma_entry_reached(g@, d as int);
    }
    marks.set(0, true);
    work.push(0);
    proof {
        assert(work@[0] == 0usize);
        assert(work@.contains(0usize));
        assert forall|a: int| 0 <= a < n && #[trigger] marks@[a] implies a == 0 by {}
    }
    while work.len() > 0
        invariant
            n == g@.len(),
            n > 0,
            marks@.len() == n,
            marks@[0],
            forall|k: int| 0 <= k < work@.len() ==> #[trigger] work@[k] < n && marks@[work@[k] as int],
            forall|b: int| 0 <= b < n && #[trigger] marks@[b] ==> reaches_avoiding(g@, d as int, b),
            forall|a: int, b: int|
                0 <= a < n && #[trigger] marks@[a] && a != d && !work@.contains(a as usize)
                    && #[trigger] edge(g@, a, b) ==> marks@[b],
        decreases 2 * count_false(marks@) + work@.len(),
    {
        let ghost marks0 = marks@;
        let ghost work0 = work@;
        let a = work.pop().unwrap();
        let ghost work1 = work@;
        assert(work0 =~= work1.push(a));
        assert(a == work0[work0.len() - 1]);
        if a != d {
            let s = g[a];
            match s.first {
                Some(b) => {
                    if b < n {
                        proof {
                            assert(edge(g@, a as int, b as int));
                            lemma_extend_walk(g@, d as int, a as int, b as int);
                        }
                        mark(&mut marks, &mut work, b);
                    }
                },
                None => {},
            }
            let ghost marks2 = marks@;
            let ghost work2 = work@;
            match s.second {
                Some(b) => {
                    if b < n {
                        proof {
                            assert(edge(g@, a as int, b as int));
                            lemma_extend_walk(g@, d as int, a as int, b as int);
                        }
                        mark(&mut marks, &mut work, b);
                    }
                },
                None => {},
            }
            proof {
                assert forall|x: int| 0 <= x < n && marks0[x] implies marks2[x] && marks@[x] by {}
                assert forall|k: int| 0 <= k < work@.len() implies #[trigger] work@[k] < n
                    && marks@[work@[k] as int] by {
                    if k < work1.len() {
                        assert(work@[k] == work0[k]);
                    }
                }
                assert forall|x: int, b: int|
                    0 <= x < n && #[trigger] marks@[x] && x != d && !work@.contains(x as usize)
                        && #[trigger] edge(g@, x, b) implies marks@[b] by {
                    if x == a {
                        assert(marks@[b]);
                    } else if marks0[x] {
                        if work0.contains(x as usize) {
                            let k = choose|k: int| 0 <= k < work0.len() && work0[k] == x as usize;
                            assert(k < work1.len());
                            assert(work@[k] == x as usize);
                            assert(work@.contains(x as usize));
                        }
                        assert(marks0[b]);
                    } else {
                        if !marks2[x] {
                            assert(work@[work@.len() - 1] == x as usize);
                        } else {
                            assert(work2[work2.len() - 1] == x as usize);
                            assert(work@[work2.len() - 1] == x as usize);
                        }
                        assert(work@.contains(x as usize));
                    }
                }
            }
        } else {
            proof {
                assert forall|x: int, b: int|
                    0 <= x < n && #[trigger] marks@[x] && x != d && !work@.contains(x as usize)
                        && #[trigger] edge(g@, x, b) implies marks@[b] by {
                    if work0.contains(x as usize) {
                        let k = choose|k: int| 0 <= k < work0.len() && work0[k] == x as usize;
                        assert(k < work1.len());
                        assert(work@[k] == x as usize);
                    }
                }
            }
        }
    }
    proof {
        assert forall|b: int| 0 <= b < n && reaches_avoiding(g@, d as int, b) implies marks@[b] by {
            let p = choose|p: Seq<int>| #[trigger]
                is_walk(g@, p) && p.last() == b && !passes(p, d as int);
            assert forall|x: int, y: int|
                0 <= x < g@.len() && #[trigger] marks@[x] && x != d && #[trigger] edge(g@, x, y)
                    implies marks@[y] by {
                assert(!work@.contains(x as usize));
            }
            lemma_closed_holds_reached(g@, d as int, marks@, p);
        }
    }
    marks
}

/// For every pair of blocks (d, b), whether some control path arrives at
/// `b` without passing through `d` before.
pub fn avoidance_table(g: &Vec<Successors>) -> (table: Vec<Vec<bool>>)
    ensures
        table@.len() == g@.len(),
        forall|d: int| 0 <= d < g@.len() ==> (#[trigger] table@[d])@.len() == g@.len(),
        forall|d: int, b: int|
            0 <= d < g@.len() && 0 <= b < g@.len() ==> (#[trigger] table@[d]@[b]
                <==> reaches_avoiding(g@, d, b)),
{
    let n = g.len();
    let mut table: Vec<Vec<bool>> = Vec::new();
    let mut d: usize = 0;
    while d < n
        invariant
            d <= n,
            n == g@.len(),
            table@.len() == d,
            forall|k: int| 0 <= k < d ==> (#[trigger] table@[k])@.len() == n,
            forall|k: int, b: int|
                0 <= k < d && 0 <= b < n ==> (#[trigger] table@[k]@[b] <==> reaches_avoiding(
                    g@,
                    k,
                    b,
                )),
        decreases n - d,
    {
        let row = reachable_avoiding(g, d);
        table.push(row);
        d += 1;
    }
    table
}

} // verus!
