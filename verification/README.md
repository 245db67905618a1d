# univac

A verified library for the UNIVAC 1219: its one's complement arithmetic, the
paper tape formats and the `.76` loader format, the I/O channel and the
teletype, the processor's execution of decoded instructions, the assembler,
the analysis behind the disassembler listing, and the teletype page of the
web front end. Every function in `src/` carries a contract proved by Verus,
except `text::push_char`, a one-line call of std's `String::push` whose
contract (the character is appended) is taken as given.

- `src/arith.rs`, `src/bits.rs`: 18- and 36-bit one's complement arithmetic.
- `src/tape.rs`, `src/memory.rs`: tapes (binary and text), memory images,
  the `.76` format and memory dumps.
- `src/io.rs`, `src/emulator.rs`: the I/O channel and the processor.
- `src/text.rs`, `src/instruction.rs`, `src/assembler.rs`: reading assembly
  source, laying it out and encoding it as a tape.
- `src/disassembler.rs`: references, strings and jump targets in a program.
- `src/terminal.rs`, `src/machine.rs`: the teletype page with overstriking,
  and the state behind the web front end.
- `app/`: command-line tools (assembler, tape listing, memory dump, tape
  conversion, serial transmission to a tape punch).
- `tests/`: tests of the library on concrete values.
