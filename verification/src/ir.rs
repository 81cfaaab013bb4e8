//! The intermediate representation: bodies made of blocks, each a stream of instructions.
use vstd::prelude::*;

use crate::constant::Constant;
use crate::ids::{AdtId, BlockId, BodyId, InstId, Local, Location, NativeId, StrId};
use crate::ops::{AccessKind, BinOp, OperandKind, UnaryOp};

verus! {

broadcast use vstd::seq_lib::group_seq_properties;

/// One instruction of the IR. Operands name the instructions whose values they use.
#[derive(Debug, Clone)]
pub enum Inst {
    Constant(Constant),
    SetLocal(Local, InstId),
    GetLocal(Local),
    BinOp { left: InstId, op: BinOp, right: InstId, kind: OperandKind },
    UnaryOp { op: UnaryOp, right: InstId },
    JumpIfFalse { condition: InstId, target: BlockId },
    Jump { target: BlockId },
    Switch { scrut: InstId, base: u32, table: Vec<BlockId>, default: BlockId },
    Phi(Vec<(BlockId, InstId)>),
    ForNext { idx: InstId, bound: InstId, target: BlockId },
    NewArray,
    NewDict,
    SetIndex { set: InstId, index: InstId, value: InstId },
    GetIndex { set: InstId, index: InstId, kind: AccessKind },
    GetField { src: InstId, slot: u32, kind: AccessKind },
    SetField { receiver: InstId, slot: u32, value: InstId },
    Push { array: InstId, value: InstId },
    Insert { dict: InstId, key: StrId, value: InstId },
    Len(InstId),
    ToFloat(InstId),
    Sqrt(InstId),
    Unwrap(InstId),
    In(InstId, InstId, bool),
    Format(Vec<FormatPart>),
    RefBody(BodyId),
    MakeClosure { body: BodyId, captures: Vec<InstId> },
    Call { callee: InstId, args: Vec<InstId> },
    CallDirect { body: BodyId, args: Vec<InstId> },
    CallNative { id: NativeId, args: Vec<InstId> },
    Return(InstId),
    NewInstance { adt: AdtId, fields: Vec<InstId> },
    IsInstance { src: InstId, adt: AdtId },
    Panic,
    Raise(InstId),
    IsRaised(InstId),
    UnwrapRaised(InstId),
}

/// A piece of a format string: literal text, or the value of an instruction.
#[derive(Debug, Clone, Copy, PartialEq, Eq, Structural)]
pub enum FormatPart {
    Literal(StrId),
    Value(InstId),
}

/// The instructions a format string shows, in order.
pub open spec fn format_values(parts: Seq<FormatPart>) -> Seq<InstId>
    decreases parts.len(),
{
    if parts.len() == 0 {
        Seq::empty()
    } else {
        let rest = format_values(parts.drop_last());
        match parts.last() {
            FormatPart::Value(v) => rest.push(v),
            FormatPart::Literal(_) => rest,
        }
    }
}

/// The instruction an instruction branches to, if it branches with a single target.
pub open spec fn jump_target_of(i: Inst) -> Option<BlockId> {
    match i {
        Inst::Jump { target } => Some(target),
        Inst::JumpIfFalse { target, .. } => Some(target),
        Inst::ForNext { target, .. } => Some(target),
        _ => None,
    }
}

/// Every block an instruction can pass control to: a jump's target, or each arm of a switch and
/// then its default.
pub open spec fn successors(i: Inst) -> Seq<BlockId> {
    match i {
        Inst::Jump { target } => seq![target],
        Inst::JumpIfFalse { target, .. } => seq![target],
        Inst::ForNext { target, .. } => seq![target],
        Inst::Switch { table, default, .. } => table@.push(default),
        _ => Seq::empty(),
    }
}

/// The instructions whose values an instruction uses, in the order it names them.
pub open spec fn operands(i: Inst) -> Seq<InstId> {
    match i {
        Inst::SetLocal(_, v) => seq![v],
        Inst::BinOp { left, right, .. } => seq![left, right],
        Inst::UnaryOp { right, .. } => seq![right],
        Inst::JumpIfFalse { condition, .. } => seq![condition],
        Inst::SetIndex { set, index, value } => seq![set, index, value],
        Inst::GetIndex { set, index, .. } => seq![set, index],
        Inst::GetField { src, .. } => seq![src],
        Inst::SetField { receiver, value, .. } => seq![receiver, value],
        Inst::Push { array, value } => seq![array, value],
        Inst::Insert { dict, value, .. } => seq![dict, value],
        Inst::Len(v) => seq![v],
        Inst::ToFloat(v) => seq![v],
        Inst::Sqrt(v) => seq![v],
        Inst::Unwrap(v) => seq![v],
        Inst::Return(v) => seq![v],
        Inst::Raise(v) => seq![v],
        Inst::IsRaised(v) => seq![v],
        Inst::UnwrapRaised(v) => seq![v],
        Inst::In(a, b, _) => seq![a, b],
        Inst::ForNext { idx, bound, .. } => seq![idx, bound],
        Inst::IsInstance { src, .. } => seq![src],
        Inst::Switch { scrut, .. } => seq![scrut],
        Inst::Format(parts) => format_values(parts@),
        Inst::MakeClosure { captures, .. } => captures@,
        Inst::Call { callee, args } => seq![callee] + args@,
        Inst::CallDirect { args, .. } => args@,
        Inst::CallNative { args, .. } => args@,
        Inst::NewInstance { fields, .. } => fields@,
        Inst::Phi(branches) => branches@.map_values(|b: (BlockId, InstId)| b.1),
        _ => Seq::empty(),
    }
}

/// Whether an instruction has a lasting effect: a mutation, a call, or control flow.
pub open spec fn has_effect(i: Inst) -> bool {
    match i {
        Inst::SetLocal(..) | Inst::SetIndex { .. } | Inst::SetField { .. } | Inst::Push { .. }
        | Inst::Insert { .. } | Inst::Call { .. } | Inst::CallDirect { .. }
        | Inst::CallNative { .. } | Inst::Return(..) | Inst::Raise(..) | Inst::Panic
        | Inst::Jump { .. } | Inst::JumpIfFalse { .. } | Inst::ForNext { .. }
        | Inst::Switch { .. } => true,
        _ => false,
    }
}

/// Whether an instruction can fault at run time: arithmetic, indexing, unwrapping, calls, and
/// an explicit panic.
pub open spec fn can_fault(i: Inst) -> bool {
    match i {
        Inst::BinOp { .. } | Inst::UnaryOp { .. } | Inst::SetIndex { .. } | Inst::GetIndex { .. }
        | Inst::Unwrap(..) | Inst::UnwrapRaised(..) | Inst::Call { .. } | Inst::CallDirect { .. }
        | Inst::CallNative { .. } | Inst::Panic => true,
        _ => false,
    }
}

/// Whether an instruction must run even when nothing uses its value.
pub open spec fn is_root(i: Inst) -> bool {
    has_effect(i) || can_fault(i)
}

/// Ids in strictly increasing order of their index (so no id occurs twice).
pub open spec fn strictly_sorted(s: Seq<InstId>) -> bool {
    forall|a: int, b: int| 0 <= a < b < s.len() ==> s[a].0 < s[b].0
}

impl Inst {
    /// The block this instruction branches to, for a jump, a conditional jump, or a loop step.
    pub fn jump_target(&self) -> (r: Option<BlockId>)
        ensures
            r == jump_target_of(*self),
    {
        match self {
            Inst::Jump { target } => Some(*target),
            Inst::JumpIfFalse { target, .. } => Some(*target),
            Inst::ForNext { target, .. } => Some(*target),
            _ => None,
        }
    }

    /// Redirects this instruction's single jump target to `to`; an instruction without one is
    /// left as it is.
    pub fn set_jump_target(&mut self, to: BlockId)
        ensures
            jump_target_of(*old(self)) is None ==> *final(self) == *old(self),
            jump_target_of(*old(self)) is Some ==> jump_target_of(*final(self)) == Some(to),
            operands(*final(self)) == operands(*old(self)),
            has_effect(*final(self)) == has_effect(*old(self)),
            can_fault(*final(self)) == can_fault(*old(self)),
    {
        match self {
            Inst::Jump { target } => {
                *target = to;
            },
            Inst::JumpIfFalse { target, .. } => {
                *target = to;
            },
            Inst::ForNext { target, .. } => {
                *target = to;
            },
            _ => {},
        }
    }

    /// Whether this instruction has a lasting effect, so it runs even when its value is unused.
    pub fn has_effect(&self) -> (b: bool)
        ensures
            b == has_effect(*self),
    {
        match self {
            Inst::SetLocal(..) | Inst::SetIndex { .. } | Inst::SetField { .. } | Inst::Push { .. }
            | Inst::Insert { .. } | Inst::Call { .. } | Inst::CallDirect { .. }
            | Inst::CallNative { .. } | Inst::Return(..) | Inst::Raise(..) | Inst::Panic
            | Inst::Jump { .. } | Inst::JumpIfFalse { .. } | Inst::ForNext { .. }
            | Inst::Switch { .. } => true,
            _ => false,
        }
    }

    /// Whether this instruction can fault at run time.
    pub fn can_fault(&self) -> (b: bool)
        ensures
            b == can_fault(*self),
    {
        match self {
            Inst::BinOp { .. } | Inst::UnaryOp { .. } | Inst::SetIndex { .. }
            | Inst::GetIndex { .. } | Inst::Unwrap(..) | Inst::UnwrapRaised(..) | Inst::Call { .. }
            | Inst::CallDirect { .. } | Inst::CallNative { .. } | Inst::Panic => true,
            _ => false,
        }
    }

    /// Whether this instruction must run regardless of whether its result is used.
    pub fn is_root(&self) -> (b: bool)
        ensures
            b == is_root(*self),
    {
        self.has_effect() || self.can_fault()
    }
}

/// The instructions `inst` relies on, each once, in order of their index.
pub fn uses(inst: &Inst) -> (r: Vec<InstId>)
    ensures
        strictly_sorted(r@),
        forall|x: InstId| r@.contains(x) <==> operands(*inst).contains(x),
{
    let raw: Vec<InstId> = match inst {
        Inst::SetLocal(_, v) => vec![*v],
        Inst::BinOp { left, right, .. } => vec![*left, *right],
        Inst::UnaryOp { right, .. } => vec![*right],
        Inst::JumpIfFalse { condition, .. } => vec![*condition],
        Inst::SetIndex { set, index, value } => vec![*set, *index, *value],
        Inst::GetIndex { set, index, .. } => vec![*set, *index],
        Inst::GetField { src, .. } => vec![*src],
        Inst::SetField { receiver, value, .. } => vec![*receiver, *value],
        Inst::Push { array, value } => vec![*array, *value],
        Inst::Insert { dict, value, .. } => vec![*dict, *value],
        Inst::Len(v) | Inst::ToFloat(v) | Inst::Sqrt(v) | Inst::Unwrap(v) | Inst::Return(v)
        | Inst::Raise(v) | Inst::IsRaised(v) | Inst::UnwrapRaised(v) => vec![*v],
        Inst::In(a, b, _) => vec![*a, *b],
        Inst::ForNext { idx, bound, .. } => vec![*idx, *bound],
        Inst::IsInstance { src, .. } => vec![*src],
        Inst::Switch { scrut, .. } => vec![*scrut],
        Inst::Format(parts) => format_value_ids(parts),
        Inst::MakeClosure { captures, .. } => copy_ids(captures),
        Inst::Call { callee, args } => {
            let mut v: Vec<InstId> = vec![*callee];
            let mut i: usize = 0;
            while i < args.len()
                invariant
                    i <= args@.len(),
                    v@ == seq![*callee] + args@.take(i as int),
                decreases args@.len() - i,
            {
                v.push(args[i]);
                assert(args@.take(i + 1) =~= args@.take(i as int).push(args@[i as int]));
                i += 1;
            }
            assert(args@.take(i as int) =~= args@);
            v
        },
        Inst::CallDirect { args, .. } | Inst::CallNative { args, .. } => copy_ids(args),
        Inst::NewInstance { fields, .. } => copy_ids(fields),
        Inst::Phi(branches) => {
            let mut v: Vec<InstId> = Vec::new();
            let mut i: usize = 0;
            while i < branches.len()
                invariant
                    i <= branches@.len(),
                    v@ == branches@.take(i as int).map_values(|b: (BlockId, InstId)| b.1),
                decreases branches@.len() - i,
            {
                v.push(branches[i].1);
                assert(branches@.take(i + 1).map_values(|b: (BlockId, InstId)| b.1) =~= branches@.take(
                    i as int,
                ).map_values(|b: (BlockId, InstId)| b.1).push(branches@[i as int].1));
                i += 1;
            }
            assert(branches@.take(i as int) =~= branches@);
            v
        },
        _ => Vec::new(),
    };
    assert(raw@ =~= operands(*inst));
    sorted_unique(&raw)
}

/// A copy of a list of ids.
fn copy_ids(v: &Vec<InstId>) -> (c: Vec<InstId>)
    ensures
        c@ == v@,
{
    let mut out: Vec<InstId> = Vec::new();
    let mut i: usize = 0;
    while i < v.len()
        invariant
            i <= v@.len(),
            out@ == v@.take(i as int),
        decreases v@.len() - i,
    {
        out.push(v[i]);
        assert(v@.take(i + 1) =~= v@.take(i as int).push(v@[i as int]));
        i += 1;
    }
    assert(v@.take(i as int) =~= v@);
    out
}

/// The instructions a format string shows.
fn format_value_ids(parts: &Vec<FormatPart>) -> (v: Vec<InstId>)
    ensures
        v@ == format_values(parts@),
{
    let mut out: Vec<InstId> = Vec::new();
    let mut i: usize = 0;
    while i < parts.len()
        invariant
            i <= parts@.len(),
            out@ == format_values(parts@.take(i as int)),
        decreases parts@.len() - i,
    {
        assert(parts@.take(i + 1).drop_last() =~= parts@.take(i as int));
        if let FormatPart::Value(x) = parts[i] {
            out.push(x);
        }
        i += 1;
    }
    assert(parts@.take(i as int) =~= parts@);
    out
}

/// The ids of `v`, each once, in increasing order of index.
pub fn sorted_unique(v: &Vec<InstId>) -> (r: Vec<InstId>)
    ensures
        strictly_sorted(r@),
        forall|x: InstId| r@.contains(x) <==> v@.contains(x),
{
    let mut out: Vec<InstId> = Vec::new();
    let mut i: usize = 0;
    while i < v.len()
        invariant
            i <= v@.len(),
            strictly_sorted(out@),
            forall|x: InstId| out@.contains(x) <==> v@.take(i as int).contains(x),
        decreases v@.len() - i,
    {
        let x = v[i];
        let mut j: usize = 0;
        while j < out.len() && out[j].0 < x.0
            invariant
                j <= out@.len(),
                forall|k: int| 0 <= k < j ==> out@[k].0 < x.0,
            decreases out@.len() - j,
        {
            j += 1;
        }
        let ghost before = out@;
        if j < out.len() && out[j].0 == x.0 {
            assert forall|y: InstId| out@.contains(y) <==> (before.contains(y) || y == x) by {
                if y == x {
                    assert(out@[j as int] == x);
                }
            }
        } else {
            out.insert(j, x);
            assert forall|a: int, b: int| 0 <= a < b < out@.len() implies out@[a].0 < out@[b].0 by {
                if b < j {
                } else if a < j && b == j {
                } else if a < j {
                    assert(out@[b] == before[b - 1]);
                } else if a == j {
                    assert(out@[b] == before[b - 1]);
                    if j < before.len() {
                        assert(before[j as int].0 > x.0);
                        if b - 1 > j {
                            assert(before[j as int].0 < before[b - 1].0);
                        }
                    }
                } else {
                    assert(out@[a] == before[a - 1]);
                    assert(out@[b] == before[b - 1]);
                }
            }
            assert forall|y: InstId| out@.contains(y) <==> (before.contains(y) || y == x) by {
                if out@.contains(y) {
                    let k = choose|k: int| 0 <= k < out@.len() && out@[k] == y;
                    if k < j {
                        assert(before[k] == y);
                    } else if k > j {
                        assert(before[k - 1] == y);
                    }
                }
                if before.contains(y) {
                    let k = choose|k: int| 0 <= k < before.len() && before[k] == y;
                    if k < j {
                        assert(out@[k] == y);
                    } else {
                        assert(out@[k + 1] == y);
                    }
                }
                if y == x {
                    assert(out@[j as int] == x);
                }
            }
        }
        assert forall|y: InstId| v@.take(i + 1).contains(y) <==> (v@.take(i as int).contains(y) || y == x) by {
            assert(v@.take(i + 1) =~= v@.take(i as int).push(x));
        }
        assert forall|y: InstId| out@.contains(y) <==> v@.take(i + 1).contains(y) by {
            assert(out@.contains(y) <==> (before.contains(y) || y == x));
        }
        i += 1;
    }
    assert(v@.take(i as int) =~= v@);
    out
}

/// A block: the instructions it runs, in order.
#[derive(Debug, PartialEq, Eq)]
pub struct Block {
    pub stream: Vec<InstId>,
}

impl Block {
    /// An empty block.
    pub fn new() -> (b: Self)
        ensures
            b.stream@ == Seq::<InstId>::empty(),
    {
        Block { stream: Vec::new() }
    }
}

/// What lowering a loop tracks: where `continue` and `break` go, the jumps still to patch, and
/// the collection a comprehension fills.
#[derive(Debug)]
pub struct LoopCtx {
    pub continuation: BlockId,
    pub exit: BlockId,
    pub breaks: Vec<(BlockId, InstId)>,
    pub continues: Vec<BlockId>,
    pub collection: Option<InstId>,
    pub collects: Vec<BlockId>,
}

impl LoopCtx {
    /// A loop that continues at `continuation` and exits to `exit`, with nothing to patch yet.
    pub fn new(continuation: BlockId, exit: BlockId, collection: Option<InstId>) -> (c: Self)
        ensures
            c.continuation == continuation,
            c.exit == exit,
            c.collection == collection,
            c.breaks@.len() == 0,
            c.continues@.len() == 0,
            c.collects@.len() == 0,
    {
        LoopCtx {
            continuation,
            exit,
            breaks: Vec::new(),
            continues: Vec::new(),
            collection,
            collects: Vec::new(),
        }
    }
}

/// A function body: its blocks (block 0 is the entry) and the instructions they refer to.
#[derive(Debug)]
pub struct Body {
    pub blocks: Vec<Block>,
    pub instructions: Vec<Inst>,
    pub params: Vec<Local>,
    pub captures: Vec<Local>,
    /// The source location of each instruction.
    pub locs: Vec<Location>,
    /// The source names of locals, for those that have one.
    pub artifacts: Vec<(Local, String)>,
    pub current_block: BlockId,
    /// The location that instructions added now take.
    pub current_loc: Location,
    pub loop_stack: Vec<LoopCtx>,
}

/// The instruction streams of a body's blocks.
pub open spec fn streams(b: Body) -> Seq<Seq<InstId>> {
    b.blocks@.map_values(|blk: Block| blk.stream@)
}

/// A well-formed body: it has an entry block, every id fits `u32`, every stream names existing
/// instructions, and every instruction names existing instructions and blocks.
pub open spec fn body_wf(b: Body) -> bool {
    &&& 1 <= b.blocks@.len() <= u32::MAX
    &&& b.instructions@.len() <= u32::MAX
    &&& b.locs@.len() == b.instructions@.len()
    &&& forall|bi: int, k: int|
        0 <= bi < b.blocks@.len() && 0 <= k < b.blocks@[bi].stream@.len() ==> (
        #[trigger] b.blocks@[bi].stream@[k]).0 < b.instructions@.len()
    &&& forall|ii: int, k: int|
        0 <= ii < b.instructions@.len() && 0 <= k < successors(b.instructions@[ii]).len() ==> (
        #[trigger] successors(b.instructions@[ii])[k]).0 < b.blocks@.len()
    &&& forall|ii: int, k: int|
        0 <= ii < b.instructions@.len() && 0 <= k < operands(b.instructions@[ii]).len() ==> (
        #[trigger] operands(b.instructions@[ii])[k]).0 < b.instructions@.len()
}

impl Body {
    /// An empty body: one empty entry block and no instructions.
    pub fn new() -> (b: Self)
        ensures
            body_wf(b),
            streams(b) == seq![Seq::<InstId>::empty()],
            b.instructions@.len() == 0,
            b.current_block == BlockId(0),
            b.current_loc == Location::synthetic(),
    {
        let mut blocks: Vec<Block> = Vec::new();
        blocks.push(Block::new());
        let b = Body {
            blocks,
            instructions: Vec::new(),
            params: Vec::new(),
            captures: Vec::new(),
            locs: Vec::new(),
            artifacts: Vec::new(),
            current_block: BlockId(0),
            current_loc: Location::synthetic(),
            loop_stack: Vec::new(),
        };
        assert(streams(b) =~= seq![Seq::<InstId>::empty()]);
        b
    }
}


/// Whether a block's last instruction ends it: a jump, a branch, a return or a switch.
pub open spec fn ends_block(i: Inst) -> bool {
    i is Jump || i is JumpIfFalse || i is Return || i is Switch
}

impl Body {
    /// The stream of the block instructions are added to.
    pub open spec fn current_stream(self) -> Seq<InstId> {
        self.blocks@[self.current_block.0 as int].stream@
    }

    /// Adds an empty block at the end and returns its id.
    pub fn push_block(&mut self) -> (id: BlockId)
        requires
            body_wf(*old(self)),
            old(self).blocks@.len() < u32::MAX,
        ensures
            body_wf(*final(self)),
            id.0 == old(self).blocks@.len(),
            streams(*final(self)) == streams(*old(self)).push(Seq::<InstId>::empty()),
            final(self).instructions@ == old(self).instructions@,
            final(self).current_block == old(self).current_block,
            final(self).params == old(self).params,
            final(self).captures == old(self).captures,
            final(self).locs == old(self).locs,
            final(self).current_loc == old(self).current_loc,
    {
        let id = BlockId(self.blocks.len() as u32);
        self.blocks.push(Block::new());
        proof {
            assert(streams(*self) =~= streams(*old(self)).push(Seq::<InstId>::empty()));
            assert forall|ii: int, k: int|
                0 <= ii < self.instructions@.len() && 0 <= k < successors(self.instructions@[ii]).len()
                implies (#[trigger] successors(self.instructions@[ii])[k]).0 < self.blocks@.len() by {
                assert(successors(old(self).instructions@[ii])[k].0 < old(self).blocks@.len());
            }
            assert forall|bi: int, k: int|
                0 <= bi < self.blocks@.len() && 0 <= k < self.blocks@[bi].stream@.len() implies (
                #[trigger] self.blocks@[bi].stream@[k]).0 < self.instructions@.len() by {
                assert(bi < old(self).blocks@.len());
                assert(self.blocks@[bi] == old(self).blocks@[bi]);
            }
        }
        id
    }

    /// Makes `id` the block instructions are added to.
    pub fn target(&mut self, id: BlockId)
        ensures
            *final(self) == (Body { current_block: id, ..*old(self) }),
    {
        self.current_block = id;
    }

    /// Adds `inst` to the instructions and to the end of the current block; returns its id.
    pub fn push_inst(&mut self, inst: Inst) -> (iid: InstId)
        requires
            body_wf(*old(self)),
            old(self).current_block.0 < old(self).blocks@.len(),
            old(self).instructions@.len() < u32::MAX,
            forall|k: int| 0 <= k < operands(inst).len() ==> (#[trigger] operands(inst)[k]).0
                < old(self).instructions@.len(),
            forall|k: int| 0 <= k < successors(inst).len() ==> (#[trigger] successors(inst)[k]).0
                < old(self).blocks@.len(),
        ensures
            body_wf(*final(self)),
            iid.0 == old(self).instructions@.len(),
            final(self).instructions@ == old(self).instructions@.push(inst),
            streams(*final(self)) == streams(*old(self)).update(
                old(self).current_block.0 as int,
                old(self).current_stream().push(iid),
            ),
            final(self).current_block == old(self).current_block,
            final(self).params == old(self).params,
            final(self).captures == old(self).captures,
            final(self).locs@ == old(self).locs@.push(old(self).current_loc),
            final(self).current_loc == old(self).current_loc,
    {
        let iid = InstId(self.instructions.len() as u32);
        let cb = self.current_block.0 as usize;
        self.instructions.push(inst);
        let loc = self.current_loc;
        self.locs.push(loc);
        let mut stream = Vec::new();
        let mut k: usize = 0;
        while k < self.blocks[cb].stream.len()
            invariant
                cb < self.blocks@.len(),
                k <= self.blocks@[cb as int].stream@.len(),
                stream@ == self.blocks@[cb as int].stream@.take(k as int),
            decreases self.blocks@[cb as int].stream@.len() - k,
        {
            stream.push(self.blocks[cb].stream[k]);
            k += 1;
            assert(stream@ =~= self.blocks@[cb as int].stream@.take(k as int));
        }
        assert(stream@ =~= old(self).current_stream());
        stream.push(iid);
        self.blocks.set(cb, Block { stream });
        proof {
            assert(streams(*self) =~= streams(*old(self)).update(
                cb as int,
                old(self).current_stream().push(iid),
            ));
            assert forall|ii: int, k: int|
                0 <= ii < self.instructions@.len() && 0 <= k < successors(self.instructions@[ii]).len()
                implies (#[trigger] successors(self.instructions@[ii])[k]).0 < self.blocks@.len() by {
                if ii < old(self).instructions@.len() {
                    assert(self.instructions@[ii] == old(self).instructions@[ii]);
                }
            }
            assert forall|ii: int, k: int|
                0 <= ii < self.instructions@.len() && 0 <= k < operands(self.instructions@[ii]).len()
                implies (#[trigger] operands(self.instructions@[ii])[k]).0 < self.instructions@.len() by {
                if ii < old(self).instructions@.len() {
                    assert(self.instructions@[ii] == old(self).instructions@[ii]);
                }
            }
            assert forall|bi: int, k: int|
                0 <= bi < self.blocks@.len() && 0 <= k < self.blocks@[bi].stream@.len() implies (
                #[trigger] self.blocks@[bi].stream@[k]).0 < self.instructions@.len() by {
                if bi != cb {
                    assert(self.blocks@[bi] == old(self).blocks@[bi]);
                } else if k < old(self).current_stream().len() {
                    assert(self.blocks@[bi].stream@[k] == old(self).blocks@[bi].stream@[k]);
                }
            }
        }
        iid
    }

    /// Makes `loc` the location of the instructions added from now on.
    pub fn set_loc(&mut self, loc: Location)
        ensures
            *final(self) == (Body { current_loc: loc, ..*old(self) }),
    {
        self.current_loc = loc;
    }

    /// Whether the current block already ends in a jump, a branch, a return or a switch.
    pub fn is_terminated(&self) -> (b: bool)
        requires
            body_wf(*self),
            self.current_block.0 < self.blocks@.len(),
        ensures
            b == (self.current_stream().len() > 0 && ends_block(
                self.instructions@[self.current_stream().last().0 as int],
            )),
    {
        let s = &self.blocks[self.current_block.0 as usize].stream;
        if s.len() == 0 {
            return false;
        }
        let last = s[s.len() - 1];
        matches!(
            &self.instructions[last.0 as usize],
            Inst::Jump { .. } | Inst::JumpIfFalse { .. } | Inst::Return(_) | Inst::Switch { .. }
        )
    }
}

} // verus!
