//! A verified library for the UNIVAC 1219: one's complement arithmetic,
//! paper tape formats, memory images and the `.76` loader format, the I/O
//! channels, the processor's execution of decoded instructions, the
//! assembler, the analysis behind the disassembler listing, and the
//! teletype page and machine state of the web front end.

pub mod bits;
pub mod arith;
pub mod tape;
pub mod memory;
pub mod io;
pub mod instruction;
pub mod emulator;
pub mod text;
pub mod assembler;
pub mod terminal;
pub mod machine;
pub mod disassembler;
