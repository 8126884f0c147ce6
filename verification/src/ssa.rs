//! Single-assignment discipline: where temporaries are defined, and whether
//! a use has its definition on every control path.
//!
//! A use of a temporary is resolved when the function holds exactly one
//! definition of that name, the definition gives the temporary the
//! representation the use reads it with, and every control path from the
//! entry to the use passes the definition first.
use vstd::prelude::*;
use crate::block::{block_views, Block, BlockView};
use crate::cfg::{cfg, dominates, lemma_dominates_iff, passes, reaches_avoiding};
use crate::function::Param;
use crate::layout::Repr;
use crate::name::Name;
use crate::value::Value;

verus! {

/// A place where a temporary is defined.
#[derive(Clone, Copy, Debug, PartialEq, Eq, Structural, Hash)]
pub enum DefSite {
    /// The parameter at this position.
    Param(usize),
    /// The instruction at (block, position in the block).
    Inst(usize, usize),
}

/// One definition of a function: which temporary, and where.
#[derive(Clone, Copy, Debug, PartialEq, Eq, Structural, Hash)]
pub struct Definition {
    pub name: Name,
    pub repr: Repr,
    pub site: DefSite,
}

/// The temporary that is defined at `s`, if one is.
pub open spec fn defined_at(params: Seq<Param>, blocks: Seq<BlockView>, s: DefSite) -> Option<
    Value,
> {
    match s {
        DefSite::Param(k) => if k < params.len() {
            Some(Value::Temporary(params[k as int].name, params[k as int].repr))
        } else {
            None
        },
        DefSite::Inst(b, i) => if b < blocks.len() && i < blocks[b as int].insts.len() {
            blocks[b as int].insts[i as int].defines()
        } else {
            None
        },
    }
}

/// Whether a temporary named `n` is defined at `s`.
pub open spec fn defines_name(params: Seq<Param>, blocks: Seq<BlockView>, s: DefSite, n: Name)
    -> bool {
    defined_at(params, blocks, s) matches Some(v) && v.spec_name() == Some(n)
}

/// Whether the definition at `s` comes before position `i` of block `b` on
/// every control path: a parameter always does; an instruction does if it
/// stands earlier in the same block, or in a block that every path to `b`
/// has passed through.
pub open spec fn site_dominates(blocks: Seq<BlockView>, s: DefSite, b: int, i: int) -> bool {
    match s {
        DefSite::Param(_) => true,
        DefSite::Inst(db, di) => (db == b && di < i) || dominates(cfg(blocks), db as int, b),
    }
}

/// Whether `s` is the one definition that the use of `v` at position `i` of
/// block `b` goes back to.
pub open spec fn resolves_to(
    params: Seq<Param>,
    blocks: Seq<BlockView>,
    b: int,
    i: int,
    v: Value,
    s: DefSite,
) -> bool {
    &&& v matches Value::Temporary(n, _)
    &&& defined_at(params, blocks, s) == Some(v)
    &&& forall|other: DefSite| #[trigger] defines_name(params, blocks, other, n) ==> other == s
    &&& site_dominates(blocks, s, b, i)
}

/// Whether the read of `v` at position `i` of block `b` is in order: `v` is
/// no temporary, or it is one and has its one definition before the read.
pub open spec fn resolved(params: Seq<Param>, blocks: Seq<BlockView>, b: int, i: int, v: Value)
    -> bool {
    v is Temporary ==> exists|s: DefSite| resolves_to(params, blocks, b, i, v, s)
}

/// Whether, on the control path `p`, the definition at `s` has been passed
/// when position `i` of the last block of `p` is reached.
pub open spec fn definition_reaches(p: Seq<int>, s: DefSite, i: int) -> bool {
    match s {
        DefSite::Param(_) => true,
        DefSite::Inst(db, di) => passes(p, db as int) || (db == p.last() && di < i),
    }
}

/// Whether `defs` holds a definition at site `s`.
pub open spec fn listed(defs: Seq<Definition>, s: DefSite) -> bool {
    exists|j: int| 0 <= j < defs.len() && defs[j].site == s
}

/// Whether `d` records what is defined at its site.
pub open spec fn entry_ok(params: Seq<Param>, blocks: Seq<BlockView>, d: Definition) -> bool {
    defined_at(params, blocks, d.site) == Some(Value::Temporary(d.name, d.repr))
}

/// Whether `s` comes before position `i` of block `b` in the order that
/// puts parameters first and then instructions block by block.
pub open spec fn site_before(s: DefSite, b: int, i: int) -> bool {
    match s {
        DefSite::Param(_) => true,
        DefSite::Inst(sb, si) => sb < b || (sb == b && si < i),
    }
}

/// Whether `defs` holds exactly the definitions before position `i` of
/// block `b`, each once.
pub open spec fn partial_definition_list(
    params: Seq<Param>,
    blocks: Seq<BlockView>,
    defs: Seq<Definition>,
    b: int,
    i: int,
) -> bool {
    &&& forall|j: int|
        0 <= j < defs.len() ==> entry_ok(params, blocks, #[trigger] defs[j]) && site_before(
            defs[j].site,
            b,
            i,
        )
    &&& forall|s: DefSite|
        site_before(s, b, i) && defined_at(params, blocks, s) is Some ==> #[trigger] listed(
            defs,
            s,
        )
    &&& forall|j1: int, j2: int|
        0 <= j1 < j2 < defs.len() ==> (#[trigger] defs[j1]).site != (#[trigger] defs[j2]).site
}

/// Whether `defs` holds exactly the definitions of the function, each once.
pub open spec fn is_definition_list(
    params: Seq<Param>,
    blocks: Seq<BlockView>,
    defs: Seq<Definition>,
) -> bool {
    &&& forall|j: int| 0 <= j < defs.len() ==> entry_ok(params, blocks, #[trigger] defs[j])
    &&& forall|s: DefSite| defined_at(params, blocks, s) is Some ==> #[trigger] listed(defs, s)
    &&& forall|j1: int, j2: int|
        0 <= j1 < j2 < defs.len() ==> (#[trigger] defs[j1]).site != (#[trigger] defs[j2]).site
}

/// Whether `k` is the one entry of `defs` that defines the name `n`.
pub open spec fn sole(defs: Seq<Definition>, n: Name, k: int) -> bool {
    &&& 0 <= k < defs.len()
    &&& defs[k].name == n
    &&& forall|j: int| 0 <= j < defs.len() && (#[trigger] defs[j]).name == n ==> j == k
}

proof fn lemma_listed_push(defs: Seq<Definition>, d: Definition, s: DefSite)
    requires
        listed(defs, s) || d.site == s,
    ensures
        listed(defs.push(d), s),
{
    if listed(defs, s) {
        let j = choose|j: int| 0 <= j < defs.len() && defs[j].site == s;
        assert(defs.push(d)[j].site == s);
    } else {
        assert(defs.push(d)[defs.len() as int].site == s);
    }
}

proof fn lemma_partial_push(
    params: Seq<Param>,
    blocks: Seq<BlockView>,
    defs: Seq<Definition>,
    b: int,
    i: int,
    d: Definition,
)
    requires
        partial_definition_list(params, blocks, defs, b, i),
        0 <= b < blocks.len() <= usize::MAX,
        0 <= i < blocks[b].insts.len() <= usize::MAX,
        d.site == DefSite::Inst(b as usize, i as usize),
        entry_ok(params, blocks, d),
    ensures
        partial_definition_list(params, blocks, defs.push(d), b, i + 1),
{
    let next = defs.push(d);
    assert forall|s: DefSite|
        site_before(s, b, i + 1) && defined_at(params, blocks, s) is Some implies #[trigger] listed(
        next,
        s,
    ) by {
        if s != d.site {
            assert(site_before(s, b, i));
            assert(listed(defs, s));
        }
        lemma_listed_push(defs, d, s);
    }
    assert forall|j1: int, j2: int| 0 <= j1 < j2 < next.len() implies (#[trigger] next[j1]).site
        != (#[trigger] next[j2]).site by {
        if j2 == defs.len() {
            assert(site_before(defs[j1].site, b, i));
        } else {
            assert(defs[j1].site != defs[j2].site);
        }
    }
    assert forall|j: int| 0 <= j < next.len() implies entry_ok(params, blocks, #[trigger] next[j])
        && site_before(next[j].site, b, i + 1) by {
        if j < defs.len() {
            assert(site_before(defs[j].site, b, i));
        }
    }
}

proof fn lemma_partial_skip(
    params: Seq<Param>,
    blocks: Seq<BlockView>,
    defs: Seq<Definition>,
    b: int,
    i: int,
)
    requires
        partial_definition_list(params, blocks, defs, b, i),
        0 <= b < blocks.len() <= usize::MAX,
        0 <= i < blocks[b].insts.len() <= usize::MAX,
        blocks[b].insts[i].defines() is None,
    ensures
        partial_definition_list(params, blocks, defs, b, i + 1),
{
    assert forall|s: DefSite|
        site_before(s, b, i + 1) && defined_at(params, blocks, s) is Some implies #[trigger] listed(
        defs,
        s,
    ) by {
        assert(s != DefSite::Inst(b as usize, i as usize));
        assert(site_before(s, b, i));
    }
    assert forall|j: int| 0 <= j < defs.len() implies entry_ok(params, blocks, #[trigger] defs[j])
        && site_before(defs[j].site, b, i + 1) by {
        assert(site_before(defs[j].site, b, i));
    }
}

proof fn lemma_partial_next_block(
    params: Seq<Param>,
    blocks: Seq<BlockView>,
    defs: Seq<Definition>,
    b: int,
)
    requires
        0 <= b < blocks.len(),
        partial_definition_list(params, blocks, defs, b, blocks[b].insts.len() as int),
    ensures
        partial_definition_list(params, blocks, defs, b + 1, 0),
{
    let i = blocks[b].insts.len() as int;
    assert forall|s: DefSite|
        site_before(s, b + 1, 0) && defined_at(params, blocks, s) is Some implies #[trigger] listed(
        defs,
        s,
    ) by {
        assert(site_before(s, b, i));
    }
    assert forall|j: int| 0 <= j < defs.len() implies entry_ok(params, blocks, #[trigger] defs[j])
        && site_before(defs[j].site, b + 1, 0) by {
        assert(site_before(defs[j].site, b, i));
    }
}

proof fn lemma_partial_complete(params: Seq<Param>, blocks: Seq<BlockView>, defs: Seq<Definition>)
    requires
        partial_definition_list(params, blocks, defs, blocks.len() as int, 0),
    ensures
        is_definition_list(params, blocks, defs),
{
    assert forall|s: DefSite| defined_at(params, blocks, s) is Some implies #[trigger] listed(
        defs,
        s,
    ) by {
        assert(site_before(s, blocks.len() as int, 0));
    }
}

/// What the answer of a search for the one definition of a name means for a
/// read of the temporary of that name.
proof fn lemma_resolution(
    params: Seq<Param>,
    blocks: Seq<BlockView>,
    defs: Seq<Definition>,
    b: int,
    i: int,
    v: Value,
    found: Option<int>,
)
    requires
        is_definition_list(params, blocks, defs),
        v is Temporary,
        found matches Some(k) ==> sole(defs, v.spec_name()->0, k),
        found is None ==> forall|k: int| !sole(defs, v.spec_name()->0, k),
    ensures
        resolved(params, blocks, b, i, v) <==> (found matches Some(k) && defs[k].repr
            == v.spec_repr() && site_dominates(blocks, defs[k].site, b, i)),
{
    let n = v.spec_name()->0;
    if resolved(params, blocks, b, i, v) {
        let s = choose|s: DefSite| resolves_to(params, blocks, b, i, v, s);
        assert(listed(defs, s));
        let k = choose|k: int| 0 <= k < defs.len() && defs[k].site == s;
        assert(entry_ok(params, blocks, defs[k]));
        assert forall|j: int| 0 <= j < defs.len() && (#[trigger] defs[j]).name == n implies j
            == k by {
            assert(entry_ok(params, blocks, defs[j]));
            assert(defines_name(params, blocks, defs[j].site, n));
            if j < k {
                assert(defs[j].site != defs[k].site);
            }
            if k < j {
                assert(defs[k].site != defs[j].site);
            }
        }
        assert(sole(defs, n, k));
        assert(found == Some(k));
    }
    if found is Some && defs[found->0].repr == v.spec_repr() && site_dominates(
        blocks,
        defs[found->0].site,
        b,
        i,
    ) {
        let k = found->0;
        let s = defs[k].site;
        assert(entry_ok(params, blocks, defs[k]));
        assert forall|other: DefSite| #[trigger]
            defines_name(params, blocks, other, n) implies other == s by {
            assert(listed(defs, other));
            let j = choose|j: int| 0 <= j < defs.len() && defs[j].site == other;
            assert(entry_ok(params, blocks, defs[j]));
            assert(defs[j].name == n);
        }
        assert(resolves_to(params, blocks, b, i, v, s));
    }
}

/// The definitions of a function: the parameters first, then the
/// destinations of the instructions, block by block.
pub fn definitions(params: &Vec<Param>, blocks: &Vec<Block>) -> (defs: Vec<Definition>)
    ensures
        is_definition_list(params@, block_views(blocks@), defs@),
{
    let ghost views = block_views(blocks@);
    let mut defs: Vec<Definition> = Vec::new();
    let np = params.len();
    let mut k: usize = 0;
    while k < np
        invariant
            k <= np,
            np == params@.len(),
            defs@.len() == k,
            forall|j: int|
                0 <= j < k ==> #[trigger] defs@[j] == (Definition {
                    name: params@[j].name,
                    repr: params@[j].repr,
                    site: DefSite::Param(j as usize),
                }),
        decreases np - k,
    {
        let p = params[k];
        defs.push(Definition { name: p.name, repr: p.repr, site: DefSite::Param(k) });
        k += 1;
    }
    proof {
        assert forall|s: DefSite|
            site_before(s, 0, 0) && defined_at(params@, views, s) is Some implies #[trigger] listed(
            defs@,
            s,
        ) by {
            match s {
                DefSite::Param(x) => {
                    assert(defs@[x as int].site == s);
                },
                DefSite::Inst(_, _) => {},
            }
        }
        assert(partial_definition_list(params@, views, defs@, 0, 0));
    }
    let nb = blocks.len();
    let mut b: usize = 0;
    while b < nb
        invariant
            b <= nb,
            nb == blocks@.len(),
            views == block_views(blocks@),
            partial_definition_list(params@, views, defs@, b as int, 0),
        decreases nb - b,
    {
        let block = &blocks[b];
        let ni = block.len();
        let mut i: usize = 0;
        while i < ni
            invariant
                i <= ni,
                b < nb,
                nb == blocks@.len(),
                views == block_views(blocks@),
                block@ == views[b as int],
                ni == views[b as int].insts.len(),
                partial_definition_list(params@, views, defs@, b as int, i as int),
            decreases ni - i,
        {
            match block.inst(i).dest() {
                Some(Value::Temporary(n, r)) => {
                    let d = Definition { name: n, repr: r, site: DefSite::Inst(b, i) };
                    proof {
                        lemma_partial_push(params@, views, defs@, b as int, i as int, d);
                    }
                    defs.push(d);
                },
                _ => {
                    proof {
                        lemma_partial_skip(params@, views, defs@, b as int, i as int);
                    }
                },
            }
            i += 1;
        }
        proof {
            lemma_partial_next_block(params@, views, defs@, b as int);
        }
        b += 1;
    }
    proof {
        lemma_partial_complete(params@, views, defs@);
    }
    defs
}

/// The position of the one entry of `defs` that defines the name `n`, if
/// there is exactly one.
pub fn sole_definition(defs: &Vec<Definition>, n: Name) -> (found: Option<usize>)
    ensures
        found matches Some(k) ==> sole(defs@, n, k as int),
        found is None ==> forall|k: int| !sole(defs@, n, k),
{
    let len = defs.len();
    let mut found: Option<usize> = None;
    let mut j: usize = 0;
    while j < len
        invariant
            j <= len,
            len == defs@.len(),
            found matches Some(k) ==> k < j && defs@[k as int].name == n,
            found matches Some(k) ==> forall|x: int|
                0 <= x < j && (#[trigger] defs@[x]).name == n ==> x == k,
            found is None ==> forall|x: int| 0 <= x < j ==> (#[trigger] defs@[x]).name != n,
        decreases len - j,
    {
        if defs[j].name == n {
            match found {
                Some(k) => {
                    proof {
                        assert forall|c: int| !sole(defs@, n, c) by {
                            if sole(defs@, n, c) {
                                assert(defs@[k as int].name == n);
                                assert(defs@[j as int].name == n);
                            }
                        }
                    }
                    return None;
                },
                None => {
                    found = Some(j);
                },
            }
        }
        j += 1;
    }
    found
}

/// Whether the read of `v` at position `i` of block `b` is resolved, given
/// the definitions of the function and, for every pair of blocks, whether
/// the second can be reached without passing through the first.
pub(crate) fn read_resolved(
    defs: &Vec<Definition>,
    avoid: &Vec<Vec<bool>>,
    b: usize,
    i: usize,
    v: Value,
    Ghost(params): Ghost<Seq<Param>>,
    Ghost(blocks): Ghost<Seq<BlockView>>,
) -> (ok: bool)
    requires
        is_definition_list(params, blocks, defs@),
        b < blocks.len(),
        avoid@.len() == blocks.len(),
        forall|d: int| 0 <= d < blocks.len() ==> (#[trigger] avoid@[d])@.len() == blocks.len(),
        forall|d: int, x: int|
            0 <= d < blocks.len() && 0 <= x < blocks.len() ==> (#[trigger] avoid@[d]@[x]
                <==> reaches_avoiding(cfg(blocks), d, x)),
    ensures
        ok == resolved(params, blocks, b as int, i as int, v),
{
    match v {
        Value::Temporary(n, r) => {
            let found = sole_definition(defs, n);
            let ghost found_at: Option<int> = match found {
                Some(k) => Some(k as int),
                None => None,
            };
            proof {
                lemma_resolution(params, blocks, defs@, b as int, i as int, v, found_at);
            }
            match found {
                None => false,
                Some(k) => {
                    let d = defs[k];
                    if d.repr != r {
                        return false;
                    }
                    proof {
                        assert(entry_ok(params, blocks, d));
                    }
                    match d.site {
                        DefSite::Param(_) => true,
                        DefSite::Inst(db, di) => {
                            proof {
                                lemma_dominates_iff(cfg(blocks), db as int, b as int);
                            }
                            (db == b && di < i) || !avoid[db][b]
                        },
                    }
                },
            }
        },
        _ => true,
    }
}

} // verus!
