//! A gate-level simulator of the Mic-1 microarchitecture running IJVM, its
//! microprogram, and an assembler for JAS source.

pub mod word;
pub mod codec;

pub mod bus;
pub mod decoders;
pub mod shifter;
pub mod alu;
pub mod elements;
pub mod memory;
pub mod main_memory;

pub mod ijvm;
pub mod microasm;
pub mod processor_elements;
pub mod processor;
pub mod loader;
pub mod opcode_laws;

pub mod text;
pub mod parser;
pub mod pool;
pub mod compiler;
