//! The mimas compiler back end: IR values, optimization passes, bytecode encoding and decoding,
//! pattern tests, and the plain-value logic of the command line and the Bevy integration.
pub mod ids;
pub mod ops;
pub mod wire;
pub mod constant;
pub mod list;
pub mod field;
pub mod op;
pub mod bytecode;
pub mod decode;
pub mod ir;
pub mod clean;
pub mod lower;
pub mod project;
pub mod host;
pub mod cli;
pub mod codegen;
pub mod locs;
pub mod text;
pub mod disasm;
pub mod pattern;
pub mod plan;
pub mod dump;
pub mod reflect;
