//! A 16-bit register machine: byte-addressed memory, memory-mapped devices,
//! an aliased register file and a CPU that decodes and runs a compact bytecode,
//! together with the pieces of its assembler that turn source lines into values.

pub mod assembler;
pub mod chunk;
pub mod cpu;
pub mod instructions;
pub mod memory;
pub mod memory_io;
pub mod memory_map;
pub mod parser;
pub mod registers;
pub mod screen;
pub mod variable;
