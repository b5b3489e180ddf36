//! The instruction set: a closed sum type, one variant per opcode, each
//! carrying only the operands it needs (indices, counts, jump targets).

use vstd::prelude::*;

verus! {

/// A jump/handler target, expressed as the literal offset of the target
/// instruction inside the same code unit.
#[derive(Clone, Copy, Debug, PartialEq, Eq, Structural, Hash, PartialOrd, Ord)]
pub struct Label(pub usize);

/// Transforms a value prior to formatting it.
#[derive(Copy, Clone, Debug, PartialEq, Eq, Structural)]
pub enum ConversionFlag {
    /// Converts by calling `str(<value>)`.
    Str,
    /// Converts by calling `ascii(<value>)`.
    Ascii,
    /// Converts by calling `repr(<value>)`.
    Repr,
}

/// The shape of the argument list a call-dispatch instruction expects.
#[derive(Debug, Clone, Copy, PartialEq, Eq, Structural)]
pub enum CallType {
    Positional(usize),
    Keyword(usize),
    Ex(bool),
}

#[derive(Debug, Clone, Copy, PartialEq, Eq, Structural)]
pub enum ComparisonOperator {
    Greater,
    GreaterOrEqual,
    Less,
    LessOrEqual,
    Equal,
    NotEqual,
    In,
    NotIn,
    Is,
    IsNot,
    ExceptionMatch,
}

#[derive(Debug, Clone, Copy, PartialEq, Eq, Structural)]
pub enum BinaryOperator {
    Power,
    Multiply,
    MatrixMultiply,
    Divide,
    FloorDivide,
    Modulo,
    Add,
    Subtract,
    Lshift,
    Rshift,
    And,
    Xor,
    Or,
}

#[derive(Debug, Clone, Copy, PartialEq, Eq, Structural)]
pub enum UnaryOperator {
    Not,
    Invert,
    Minus,
    Plus,
}

/// An index into one of a code unit's name tables.
pub type NameIdx = usize;

/// A single bytecode instruction.
#[derive(Debug, Clone, PartialEq)]
pub enum Instruction {
    Import { name_idx: Option<NameIdx>, symbols_idx: Vec<NameIdx>, level: usize },
    ImportStar,
    ImportFrom { idx: NameIdx },
    LoadFast(NameIdx),
    LoadNameAny(NameIdx),
    LoadGlobal(NameIdx),
    LoadDeref(NameIdx),
    LoadClassDeref(NameIdx),
    StoreFast(NameIdx),
    StoreLocal(NameIdx),
    StoreGlobal(NameIdx),
    StoreDeref(NameIdx),
    DeleteFast(NameIdx),
    DeleteLocal(NameIdx),
    DeleteGlobal(NameIdx),
    DeleteDeref(NameIdx),
    LoadClosure(NameIdx),
    Subscript,
    StoreSubscript,
    DeleteSubscript,
    StoreAttr { idx: NameIdx },
    DeleteAttr { idx: NameIdx },
    LoadConst { idx: usize },
    UnaryOperation { op: UnaryOperator },
    BinaryOperation { op: BinaryOperator, inplace: bool },
    LoadAttr { idx: NameIdx },
    CompareOperation { op: ComparisonOperator },
    Pop,
    Rotate { amount: usize },
    Duplicate,
    GetIter,
    Continue,
    Break,
    Jump { target: Label },
    /// Pop the top of the stack, and jump if this value is true.
    JumpIfTrue { target: Label },
    /// Pop the top of the stack, and jump if this value is false.
    JumpIfFalse { target: Label },
    /// Peek at the top of the stack, and jump if this value is true.
    /// Otherwise, pop top of stack.
    JumpIfTrueOrPop { target: Label },
    /// Peek at the top of the stack, and jump if this value is false.
    /// Otherwise, pop top of stack.
    JumpIfFalseOrPop { target: Label },
    MakeFunction,
    CallFunction { typ: CallType },
    ForIter { target: Label },
    ReturnValue,
    YieldValue,
    YieldFrom,
    SetupAnnotation,
    SetupLoop { start: Label, end: Label },
    /// Setup a finally handler, which will be called whenever one of this
    /// events occurs: the block is popped, the function returns, or an
    /// exception is returned.
    SetupFinally { handler: Label },
    /// Enter a finally block, without returning, excepting, just because we
    /// are there.
    EnterFinally,
    /// Marker bytecode for the end of a finally sequence.
    EndFinally,
    SetupExcept { handler: Label },
    SetupWith { end: Label },
    WithCleanupStart,
    WithCleanupFinish,
    PopBlock,
    Raise { argc: usize },
    BuildString { size: usize },
    BuildTuple { size: usize, unpack: bool },
    BuildList { size: usize, unpack: bool },
    BuildSet { size: usize, unpack: bool },
    BuildMap { size: usize, unpack: bool, for_call: bool },
    BuildSlice { size: usize },
    ListAppend { i: usize },
    SetAdd { i: usize },
    MapAdd { i: usize },
    PrintExpr,
    LoadBuildClass,
    UnpackSequence { size: usize },
    UnpackEx { before: usize, after: usize },
    FormatValue { conversion: Option<ConversionFlag> },
    PopException,
    Reverse { amount: usize },
    GetAwaitable,
    BeforeAsyncWith,
    SetupAsyncWith { end: Label },
    GetAIter,
    GetANext,
    /// Reverse order evaluation in MapAdd: required to support named
    /// expressions in dict comprehensions.
    MapAddRev { i: usize },
}

/// The mathematical value of an instruction: identical to `Instruction`
/// except that the one heap-owning variant is replaced by a `Seq`, so that
/// equality of views is deep structural equality.
#[verifier::ext_equal]
pub enum InstrView {
    ImportView { name_idx: Option<usize>, symbols_idx: Seq<usize>, level: usize },
    Plain(Instruction),
}

/// The view of an instruction.
pub open spec fn iview(i: Instruction) -> InstrView {
    match i {
        Instruction::Import { name_idx, symbols_idx, level } => InstrView::ImportView {
            name_idx,
            symbols_idx: symbols_idx@,
            level,
        },
        other => InstrView::Plain(other),
    }
}

/// Does instruction `i` carry a label equal to offset `off`?  The
/// label-bearing variants listed here are the single source of truth for
/// "what counts as a branch".
pub open spec fn instr_has_target(i: Instruction, off: usize) -> bool {
    match i {
        Instruction::Jump { target } => target.0 == off,
        Instruction::JumpIfTrue { target } => target.0 == off,
        Instruction::JumpIfFalse { target } => target.0 == off,
        Instruction::JumpIfTrueOrPop { target } => target.0 == off,
        Instruction::JumpIfFalseOrPop { target } => target.0 == off,
        Instruction::ForIter { target } => target.0 == off,
        Instruction::SetupFinally { handler } => handler.0 == off,
        Instruction::SetupExcept { handler } => handler.0 == off,
        Instruction::SetupWith { end } => end.0 == off,
        Instruction::SetupAsyncWith { end } => end.0 == off,
        Instruction::SetupLoop { start, end } => start.0 == off || end.0 == off,
        _ => false,
    }
}

/// Is offset `off` the target of some branch or handler in `instrs`?
pub open spec fn is_jump_target(instrs: Seq<Instruction>, off: usize) -> bool {
    exists|k: int| 0 <= k < instrs.len() && instr_has_target(#[trigger] instrs[k], off)
}

impl Instruction {
    /// A deep copy; the view is preserved.
    pub fn duplicate(&self) -> (r: Instruction)
        ensures
            iview(r) == iview(*self),
    {
        match self {
            Instruction::Import { name_idx, symbols_idx, level } => {
                let mut symbols: Vec<usize> = Vec::new();
                let mut k: usize = 0;
                while k < symbols_idx.len()
                    invariant
                        k <= symbols_idx.len(),
                        symbols@ =~= symbols_idx@.subrange(0, k as int),
                    decreases symbols_idx.len() - k,
                {
                    symbols.push(symbols_idx[k]);
                    k = k + 1;
                }
                proof {
                    assert(symbols@ =~= symbols_idx@);
                }
                Instruction::Import { name_idx: *name_idx, symbols_idx: symbols, level: *level }
            },
            Instruction::ImportStar => Instruction::ImportStar,
            Instruction::ImportFrom { idx } => Instruction::ImportFrom { idx: *idx },
            Instruction::LoadFast(i) => Instruction::LoadFast(*i),
            Instruction::LoadNameAny(i) => Instruction::LoadNameAny(*i),
            Instruction::LoadGlobal(i) => Instruction::LoadGlobal(*i),
            Instruction::LoadDeref(i) => Instruction::LoadDeref(*i),
            Instruction::LoadClassDeref(i) => Instruction::LoadClassDeref(*i),
            Instruction::StoreFast(i) => Instruction::StoreFast(*i),
            Instruction::StoreLocal(i) => Instruction::StoreLocal(*i),
            Instruction::StoreGlobal(i) => Instruction::StoreGlobal(*i),
            Instruction::StoreDeref(i) => Instruction::StoreDeref(*i),
            Instruction::DeleteFast(i) => Instruction::DeleteFast(*i),
            Instruction::DeleteLocal(i) => Instruction::DeleteLocal(*i),
            Instruction::DeleteGlobal(i) => Instruction::DeleteGlobal(*i),
            Instruction::DeleteDeref(i) => Instruction::DeleteDeref(*i),
            Instruction::LoadClosure(i) => Instruction::LoadClosure(*i),
            Instruction::Subscript => Instruction::Subscript,
            Instruction::StoreSubscript => Instruction::StoreSubscript,
            Instruction::DeleteSubscript => Instruction::DeleteSubscript,
            Instruction::StoreAttr { idx } => Instruction::StoreAttr { idx: *idx },
            Instruction::DeleteAttr { idx } => Instruction::DeleteAttr { idx: *idx },
            Instruction::LoadConst { idx } => Instruction::LoadConst { idx: *idx },
            Instruction::UnaryOperation { op } => Instruction::UnaryOperation { op: *op },
            Instruction::BinaryOperation { op, inplace } => Instruction::BinaryOperation {
                op: *op,
                inplace: *inplace,
            },
            Instruction::LoadAttr { idx } => Instruction::LoadAttr { idx: *idx },
            Instruction::CompareOperation { op } => Instruction::CompareOperation { op: *op },
            Instruction::Pop => Instruction::Pop,
            Instruction::Rotate { amount } => Instruction::Rotate { amount: *amount },
            Instruction::Duplicate => Instruction::Duplicate,
            Instruction::GetIter => Instruction::GetIter,
            Instruction::Continue => Instruction::Continue,
            Instruction::Break => Instruction::Break,
            Instruction::Jump { target } => Instruction::Jump { target: *target },
            Instruction::JumpIfTrue { target } => Instruction::JumpIfTrue { target: *target },
            Instruction::JumpIfFalse { target } => Instruction::JumpIfFalse { target: *target },
            Instruction::JumpIfTrueOrPop { target } => Instruction::JumpIfTrueOrPop {
                target: *target,
            },
            Instruction::JumpIfFalseOrPop { target } => Instruction::JumpIfFalseOrPop {
                target: *target,
            },
            Instruction::MakeFunction => Instruction::MakeFunction,
            Instruction::CallFunction { typ } => Instruction::CallFunction { typ: *typ },
            Instruction::ForIter { target } => Instruction::ForIter { target: *target },
            Instruction::ReturnValue => Instruction::ReturnValue,
            Instruction::YieldValue => Instruction::YieldValue,
            Instruction::YieldFrom => Instruction::YieldFrom,
            Instruction::SetupAnnotation => Instruction::SetupAnnotation,
            Instruction::SetupLoop { start, end } => Instruction::SetupLoop {
                start: *start,
                end: *end,
            },
            Instruction::SetupFinally { handler } => Instruction::SetupFinally {
                handler: *handler,
            },
            Instruction::EnterFinally => Instruction::EnterFinally,
            Instruction::EndFinally => Instruction::EndFinally,
            Instruction::SetupExcept { handler } => Instruction::SetupExcept { handler: *handler },
            Instruction::SetupWith { end } => Instruction::SetupWith { end: *end },
            Instruction::WithCleanupStart => Instruction::WithCleanupStart,
            Instruction::WithCleanupFinish => Instruction::WithCleanupFinish,
            Instruction::PopBlock => Instruction::PopBlock,
            Instruction::Raise { argc } => Instruction::Raise { argc: *argc },
            Instruction::BuildString { size } => Instruction::BuildString { size: *size },
            Instruction::BuildTuple { size, unpack } => Instruction::BuildTuple {
                size: *size,
                unpack: *unpack,
            },
            Instruction::BuildList { size, unpack } => Instruction::BuildList {
                size: *size,
                unpack: *unpack,
            },
            Instruction::BuildSet { size, unpack } => Instruction::BuildSet {
                size: *size,
                unpack: *unpack,
            },
            Instruction::BuildMap { size, unpack, for_call } => Instruction::BuildMap {
                size: *size,
                unpack: *unpack,
                for_call: *for_call,
            },
            Instruction::BuildSlice { size } => Instruction::BuildSlice { size: *size },
            Instruction::ListAppend { i } => Instruction::ListAppend { i: *i },
            Instruction::SetAdd { i } => Instruction::SetAdd { i: *i },
            Instruction::MapAdd { i } => Instruction::MapAdd { i: *i },
            Instruction::PrintExpr => Instruction::PrintExpr,
            Instruction::LoadBuildClass => Instruction::LoadBuildClass,
            Instruction::UnpackSequence { size } => Instruction::UnpackSequence { size: *size },
            Instruction::UnpackEx { before, after } => Instruction::UnpackEx {
                before: *before,
                after: *after,
            },
            Instruction::FormatValue { conversion } => Instruction::FormatValue {
                conversion: *conversion,
            },
            Instruction::PopException => Instruction::PopException,
            Instruction::Reverse { amount } => Instruction::Reverse { amount: *amount },
            Instruction::GetAwaitable => Instruction::GetAwaitable,
            Instruction::BeforeAsyncWith => Instruction::BeforeAsyncWith,
            Instruction::SetupAsyncWith { end } => Instruction::SetupAsyncWith { end: *end },
            Instruction::GetAIter => Instruction::GetAIter,
            Instruction::GetANext => Instruction::GetANext,
            Instruction::MapAddRev { i } => Instruction::MapAddRev { i: *i },
        }
    }
}

} // verus!
