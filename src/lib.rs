//! A two-pass assembler for a small 8-bit register machine.
//!
//! Source lines are classified into directives, instructions and labels; the driver
//! places instructions at an address cursor, follows includes, resolves label operands
//! and lays the program out as one contiguous byte image.
pub mod assembler;
pub mod cli;
pub mod directive;
pub mod image;
pub mod instruction;
pub mod label;
pub mod lexer;
pub mod literal;
pub mod source;
pub mod text;

pub use assembler::{AssemblyError, IntermediateRepresentation, MAX_INCLUDE_DEPTH};
pub use cli::{AssembleArgs, Cli, Commands};
pub use directive::Flag;
pub use instruction::{
    AddressingMode, BranchCondition, Instruction, InstructionData, InstructionLinkedData,
    MathOperand, Opcode, Registers,
};
pub use label::Label;
pub use lexer::{lex_line, trim_line, TokenType};
pub use literal::{parse_number, LiteralInt};
pub use source::SourceFiles;
