//! Jumps and basic blocks.
//!
//! A block is assembled in a [`BlockBuilder`]: instructions are appended in
//! order, and sealing the builder with a jump yields the [`Block`], which
//! offers no way to change it. So a block always ends in its one jump.
use vstd::prelude::*;
use crate::inst::{Instruction, InstructionView};
use crate::name::Name;
use crate::value::Value;

verus! {

/// The terminator of a block.
#[derive(Clone, Copy, Debug, PartialEq, Eq, Structural, Hash)]
pub enum Jump {
    /// Continue at the block with this label.
    Jmp(Name),
    /// Continue at the first label if the value is not zero, else at the
    /// second.
    Jnz(Value, Name, Name),
    /// Leave the function, with a value or without.
    Ret(Option<Value>),
    /// Stop; control never goes on from here.
    Hlt,
}

impl Jump {
    /// The labels this jump may continue at, in the order written.
    pub open spec fn targets(self) -> Seq<Name> {
        match self {
            Jump::Jmp(t) => seq![t],
            Jump::Jnz(_, t, f) => seq![t, f],
            Jump::Ret(_) => seq![],
            Jump::Hlt => seq![],
        }
    }

    /// The value this jump reads, if it reads one.
    pub open spec fn spec_operand(self) -> Option<Value> {
        match self {
            Jump::Jnz(c, _, _) => Some(c),
            Jump::Ret(v) => v,
            _ => None,
        }
    }

    /// The first label this jump may continue at.
    pub fn first_target(self) -> (t: Option<Name>)
        ensures
            t == if self.targets().len() > 0 {
                Some(self.targets()[0])
            } else {
                None
            },
    {
        match self {
            Jump::Jmp(t) => Some(t),
            Jump::Jnz(_, t, _) => Some(t),
            _ => None,
        }
    }

    /// The second label this jump may continue at.
    pub fn second_target(self) -> (t: Option<Name>)
        ensures
            t == if self.targets().len() > 1 {
                Some(self.targets()[1])
            } else {
                None
            },
            self.targets().len() <= 2,
    {
        match self {
            Jump::Jnz(_, _, f) => Some(f),
            _ => None,
        }
    }

    /// The value this jump reads, if it reads one.
    #[verifier::when_used_as_spec(spec_operand)]
    pub fn operand(self) -> (v: Option<Value>)
        ensures
            v == self.spec_operand(),
    {
        match self {
            Jump::Jnz(c, _, _) => Some(c),
            Jump::Ret(v) => v,
            _ => None,
        }
    }
}

/// A sealed basic block: instructions in order, then one jump.
#[derive(Debug)]
pub struct Block {
    label: Name,
    insts: Vec<Instruction>,
    jump: Jump,
}

/// A block under construction: a label and the instructions appended so far.
#[derive(Debug)]
pub struct BlockBuilder {
    label: Name,
    insts: Vec<Instruction>,
}

/// What a block is, as plain data.
pub struct BlockView {
    pub label: Name,
    pub insts: Seq<InstructionView>,
    pub jump: Jump,
}

/// One element of a block: an instruction or the jump.
pub enum Item {
    Inst(InstructionView),
    Jump(Jump),
}

impl BlockView {
    /// The elements of the block in the order they execute.
    pub open spec fn items(self) -> Seq<Item> {
        Seq::new(
            self.insts.len() + 1,
            |i: int|
                if i < self.insts.len() {
                    Item::Inst(self.insts[i])
                } else {
                    Item::Jump(self.jump)
                },
        )
    }

    /// The values read at position `i` of the block: the operands of the
    /// instruction there, or what the jump reads at the position after the
    /// last instruction.
    pub open spec fn reads(self, i: int) -> Seq<Value> {
        if 0 <= i < self.insts.len() {
            self.insts[i].operands
        } else {
            match self.jump.spec_operand() {
                Some(v) => seq![v],
                None => seq![],
            }
        }
    }
}

/// The blocks of a sequence, each as plain data.
pub open spec fn block_views(blocks: Seq<Block>) -> Seq<BlockView> {
    blocks.map_values(|b: Block| b@)
}

/// Every block holds exactly one jump, and holds it last.
pub proof fn lemma_one_jump_last(b: BlockView)
    ensures
        b.items().len() == b.insts.len() + 1,
        b.items().last() == Item::Jump(b.jump),
        forall|i: int| 0 <= i < b.items().len() - 1 ==> #[trigger] b.items()[i] is Inst,
        forall|i: int| 0 <= i < b.items().len() && #[trigger] b.items()[i] is Jump ==> i
            == b.items().len() - 1,
{
}

impl View for BlockBuilder {
    type V = (Name, Seq<InstructionView>);

    closed spec fn view(&self) -> (Name, Seq<InstructionView>) {
        (self.label, self.insts@.map_values(|i: Instruction| i@))
    }
}

impl View for Block {
    type V = BlockView;

    closed spec fn view(&self) -> BlockView {
        BlockView {
            label: self.label,
            insts: self.insts@.map_values(|i: Instruction| i@),
            jump: self.jump,
        }
    }
}

impl BlockBuilder {
    /// A block with this label and no instructions yet.
    pub fn new(label: Name) -> (b: BlockBuilder)
        ensures
            b@ == (label, Seq::<InstructionView>::empty()),
    {
        let b = BlockBuilder { label, insts: Vec::new() };
        assert(b@.1 =~= Seq::<InstructionView>::empty());
        b
    }

    /// Appends `inst` after the instructions appended before.
    pub fn push(&mut self, inst: Instruction)
        ensures
            final(self)@ == (old(self)@.0, old(self)@.1.push(inst@)),
    {
        self.insts.push(inst);
        assert(self@.1 =~= old(self)@.1.push(inst@));
    }

    /// Ends the block with `jump`.
    pub fn seal(self, jump: Jump) -> (b: Block)
        ensures
            b@ == (BlockView { label: self@.0, insts: self@.1, jump }),
    {
        Block { label: self.label, insts: self.insts, jump }
    }
}

impl Block {
    /// The label that identifies the block.
    pub fn label(&self) -> (l: Name)
        ensures
            l == self@.label,
    {
        self.label
    }

    /// The terminator.
    pub fn jump(&self) -> (j: Jump)
        ensures
            j == self@.jump,
    {
        self.jump
    }

    /// The number of instructions before the terminator.
    pub fn len(&self) -> (n: usize)
        ensures
            n == self@.insts.len(),
    {
        self.insts.len()
    }

    /// The instruction at position `i`.
    pub fn inst(&self, i: usize) -> (inst: &Instruction)
        requires
            i < self@.insts.len(),
        ensures
            inst@ == self@.insts[i as int],
    {
        &self.insts[i]
    }
}

} // verus!
