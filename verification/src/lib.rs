//! A bytecode intermediate representation for a dynamic-language virtual
//! machine: a compact instruction set, a polymorphic constant pool,
//! jump-label analysis, a checksummed binary codec, and a disassembler.

pub mod code;
pub mod codec;
pub mod constant;
pub mod instr;
pub mod render;
pub mod view;

pub use code::{Arguments, CodeFlags, CodeObject, FrozenModule, Location};
pub use constant::{
    BasicBag, BigIntValue, BorrowedConstant, Constant, ConstantBag, ConstantData, NameStr,
};
pub use instr::{
    BinaryOperator, CallType, ComparisonOperator, ConversionFlag, Instruction, Label, NameIdx,
    UnaryOperator,
};
