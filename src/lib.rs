//! Verified core of a multi-architecture assembler and disassembler session:
//! target configuration, label tables, fixup range checks, per-instruction
//! capture of assembled output, the linear disassembly loop, and the result
//! envelopes that cross the boundary to the encoding backend.

pub mod capture;
pub mod config;
pub mod disasm;
pub mod fixup;
pub mod instruction;
pub mod labels;
pub mod result;

pub use capture::{AppliedFixup, AssembleError, InstructionCapture};
pub use config::{ConfigError, Feature, FeatureSet, IntegerBase, NyxstoneConfig};
pub use disasm::{DecodeRequest, DisassembleError, Disassembly};
pub use fixup::{FixupKind, OffsetSign, ReferencePoint};
pub use instruction::Instruction;
pub use labels::{LabelDefinition, LabelTable};
pub use result::{ByteResult, InstructionResult, NyxstoneResult, StringResult};
