//! The I/O channels: the teletype terminal and the paper tape reader.
use vstd::prelude::*;
use crate::tape::{Tape, is_tape};
use crate::arith::wrapping_add_18;
use crate::text::{format_decimal, spec_digits};

verus! {

/// What the I/O channel is set up to do, selected by an external function.
#[derive(Debug, Clone, Copy, PartialEq, Eq, Structural)]
pub enum Mode {
    TermOutput,
    TermInput,
    TapeOutput,
    TapeInput,
}

/// An external function code that selects no mode.
#[derive(Debug, Clone, Copy, PartialEq, Eq, Structural)]
pub struct UnknownExternalFunction {
    pub code: u32,
}

/// The mode that an external function code selects.
pub open spec fn spec_mode_of(value: int) -> Option<Mode> {
    if value == 9 || value == 11 {
        Some(Mode::TermOutput)
    } else if value == 25 {
        Some(Mode::TermInput)
    } else if value == 105 {
        Some(Mode::TapeInput)
    } else {
        None
    }
}

/// The message for an external function code that selects no mode:
/// `Unknown External Function` and the code in decimal.
pub open spec fn spec_unknown_function_message(code: u32) -> Seq<char> {
    "Unknown External Function "@ + spec_digits(code as nat, 10)
}

impl UnknownExternalFunction {
    /// The message for the code (see `spec_unknown_function_message`).
    pub fn message(&self) -> (r: String)
        ensures
            r@ == spec_unknown_function_message(self.code),
    {
        let mut out = String::from_str("Unknown External Function ");
        let digits = format_decimal(self.code as u64);
        out.append(digits.as_str());
        out
    }
}

impl Mode {
    /// The mode selected by an external function code: 9 and 11 select
    /// terminal output, 25 terminal input, 105 tape input; any other code
    /// is refused with its message (see `spec_unknown_function_message`).
    pub fn try_from(value: u32) -> (r: Result<Mode, String>)
        ensures
            match spec_mode_of(value as int) {
                Some(m) => r matches Ok(rm) && rm == m,
                None => r matches Err(e) && e@ == spec_unknown_function_message(value),
            },
    {
        match value {
            9 => Ok(Mode::TermOutput),
            11 => Ok(Mode::TermOutput),
            25 => Ok(Mode::TermInput),
            105 => Ok(Mode::TapeInput),
            _ => Err(UnknownExternalFunction { code: value }.message()),
        }
    }
}

/// The state of the I/O channel: the terminal and initial address control
/// words, the mode, and the mounted tape.
pub struct IO {
    pub tacw: u32,
    pub iacw: u32,
    pub state: Mode,
    pub tape: Tape,
}

/// The I/O channel as plain values.
pub struct IOView {
    pub tacw: u32,
    pub iacw: u32,
    pub state: Mode,
    pub tape: Seq<u8>,
}

impl View for IO {
    type V = IOView;

    open spec fn view(&self) -> IOView {
        IOView { tacw: self.tacw, iacw: self.iacw, state: self.state, tape: self.tape@ }
    }
}

pub open spec fn io_wf(io: IOView) -> bool {
    &&& io.tacw <= 0o777777
    &&& io.iacw <= 0o777777
    &&& is_tape(io.tape)
}

/// The teletype's rendering of a word: line feed and carriage return,
/// printable ASCII up to `]`, `↑` and `←` for 94 and 95, lower case shown
/// as upper case; nothing for other codes. Only the low 7 bits count.
pub open spec fn spec_tty_char(word: int) -> Option<char> {
    let c = word % 128;
    if c == 10 {
        Some('\n')
    } else if c == 13 {
        Some('\r')
    } else if c <= 31 {
        None
    } else if c <= 93 {
        Some(c as char)
    } else if c == 94 {
        Some('\u{2191}')
    } else if c == 95 {
        Some('\u{2190}')
    } else if c <= 123 {
        Some((c - 32) as char)
    } else {
        None
    }
}

/// The teletype's rendering of a run of words, skipping those it does not
/// show.
pub open spec fn spec_tty_text(words: Seq<u32>) -> Seq<char>
    decreases words.len(),
{
    if words.len() == 0 {
        Seq::empty()
    } else {
        let prefix = spec_tty_text(words.drop_last());
        match spec_tty_char(words.last() as int) {
            Some(c) => prefix.push(c),
            None => prefix,
        }
    }
}

/// The word stored for a typed key: lower case letters as upper case.
pub open spec fn spec_of_tty_char(value: int) -> int {
    if 97 <= value <= 122 {
        value - 32
    } else {
        value
    }
}

impl IO {
    /// A channel in terminal output mode with the given tape mounted.
    pub fn new(tape: Tape) -> (r: IO)
        ensures
            r@ == (IOView { tacw: 0, iacw: 0, state: Mode::TermOutput, tape: tape@ }),
    {
        IO { tacw: 0, iacw: 0, state: Mode::TermOutput, tape }
    }

    /// Performs an external function: the word at the initial address
    /// control word selects the mode. An unknown code is not taken as
    /// fatal: it is refused with an error that names it, the mode stays as
    /// it was, and the caller (the step of the machine) decides what to do.
    pub fn external_function(&mut self, memory: &Vec<u32>, channel: u8) -> (r: Result<
        (),
        UnknownExternalFunction,
    >)
        requires
            (old(self).iacw as int) < memory@.len(),
        ensures
            match spec_mode_of(memory@[old(self).iacw as int] as int) {
                Some(m) => r is Ok && final(self)@ == (IOView { state: m, ..old(self)@ }),
                None => r == Err::<(), UnknownExternalFunction>(
                    UnknownExternalFunction { code: memory@[old(self).iacw as int] },
                ) && final(self)@ == old(self)@,
            },
    {
        let external_function = memory[self.iacw as usize];
        match Mode::try_from(external_function) {
            Ok(m) => {
                self.state = m;
                Ok(())
            },
            Err(_) => Err(UnknownExternalFunction { code: external_function }),
        }
    }

    /// The teletype's rendering of a word.
    pub fn to_tty_char(word: u32) -> (r: Option<char>)
        ensures
            r == spec_tty_char(word as int),
    {
        let c = (word & 0b0111_1111) as u8;
        assert(word & 0b0111_1111u32 == word % 128) by (bit_vector);
        if c == 10 {
            Some('\n')
        } else if c == 13 {
            Some('\r')
        } else if c <= 31 {
            None
        } else if c <= 93 {
            Some(c as char)
        } else if c == 94 {
            Some('\u{2191}')
        } else if c == 95 {
            Some('\u{2190}')
        } else if c <= 123 {
            Some((c - 32) as char)
        } else {
            None
        }
    }

    /// The text that an output transfer sends to the terminal: the words
    /// from the initial to the terminal address control word, inclusive,
    /// as the teletype shows them.
    pub fn write(&self, memory: &Vec<u32>, channel: u8) -> (r: Vec<char>)
        requires
            self.iacw <= self.tacw + 1,
            (self.tacw as int) < memory@.len(),
        ensures
            r@ == spec_tty_text(memory@.subrange(self.iacw as int, self.tacw + 1)),
    {
        let low_idx = self.iacw as usize;
        let high_idx = self.tacw as usize;
        let mut out: Vec<char> = Vec::new();
        let mut i = low_idx;
        let n = memory.len();
        while i <= high_idx
            invariant
                low_idx <= i <= high_idx + 1,
                high_idx < n,
                n == memory@.len(),
                out@ == spec_tty_text(memory@.subrange(low_idx as int, i as int)),
            decreases high_idx + 1 - i,
        {
            let c = Self::to_tty_char(memory[i]);
            let ghost prev = memory@.subrange(low_idx as int, i as int);
            assert(memory@.subrange(low_idx as int, i + 1).drop_last() =~= prev);
            match c {
                Some(c) => out.push(c),
                None => {},
            }
            i += 1;
        }
        out
    }

    /// An input transfer: in tape input mode, the next tape frame goes to
    /// the word at the initial address control word, which then advances;
    /// in any other mode nothing happens.
    pub fn read(&mut self, memory: &mut Vec<u32>, channel: u8)
        requires
            io_wf(old(self)@),
            old(self).state == Mode::TapeInput ==> old(self).tape@.len() > 0 && (old(self).iacw as int)
                < old(memory)@.len(),
        ensures
            io_wf(final(self)@),
            old(self).state == Mode::TapeInput ==> {
                &&& final(memory)@ == old(memory)@.update(
                    old(self).iacw as int,
                    old(self).tape@[0] as u32,
                )
                &&& final(self)@ == (IOView {
                    iacw: ((old(self).iacw + 1) % 0o1000000) as u32,
                    tape: old(self).tape@.drop_first(),
                    ..old(self)@
                })
            },
            old(self).state != Mode::TapeInput ==> final(memory)@ == old(memory)@ && final(self)@
                == old(self)@,
    {
        match self.state {
            Mode::TapeInput => {
                let in_char = self.tape.remove(0) as u32;
                memory.set(self.iacw as usize, in_char);
                self.iacw = wrapping_add_18(self.iacw, 1);
                assert(self.tape@ =~= old(self).tape@.drop_first());
            },
            _ => {},
        }
    }

    /// The word stored for a typed key: lower case letters as upper case.
    pub fn of_tty_char(value: u8) -> (r: u32)
        ensures
            r == spec_of_tty_char(value as int),
    {
        if 97 <= value && value <= 122 {
            (value - 32) as u32
        } else {
            value as u32
        }
    }

    /// A key typed at the terminal. In terminal input mode the key's word is
    /// stored at the initial address control word, which advances, as long
    /// as it has not passed the terminal address control word; the key is
    /// echoed as the teletype shows it. In other modes the key is ignored.
    pub fn input_async(&mut self, memory: &mut Vec<u32>, value: u8) -> (echo: Option<char>)
        requires
            io_wf(old(self)@),
            old(self).state == Mode::TermInput && old(self).iacw <= old(self).tacw ==> (old(
                self,
            ).iacw as int) < old(memory)@.len(),
        ensures
            io_wf(final(self)@),
            old(self).state == Mode::TermInput ==> {
                let v = spec_of_tty_char(value as int);
                &&& echo == spec_tty_char(v)
                &&& if old(self).iacw <= old(self).tacw {
                    &&& final(memory)@ == old(memory)@.update(old(self).iacw as int, v as u32)
                    &&& final(self)@ == (IOView {
                        iacw: ((old(self).iacw + 1) % 0o1000000) as u32,
                        ..old(self)@
                    })
                } else {
                    final(memory)@ == old(memory)@ && final(self)@ == old(self)@
                }
            },
            old(self).state != Mode::TermInput ==> echo is None && final(memory)@ == old(memory)@
                && final(self)@ == old(self)@,
    {
        match self.state {
            Mode::TermInput => {
                let v = Self::of_tty_char(value);
                if self.iacw <= self.tacw {
                    memory.set(self.iacw as usize, v);
                    self.iacw = wrapping_add_18(self.iacw, 1);
                }
                Self::to_tty_char(v)
            },
            _ => None,
        }
    }
}

/// A typed key is echoed as the teletype shows the word stored for it: a
/// printable character up to `]` as itself, a lower case letter as its
/// upper case, line feed and carriage return as themselves.
pub proof fn law_typed_key_echo(key: u8)
    ensures
        32 <= key <= 93 ==> spec_tty_char(spec_of_tty_char(key as int)) == Some(key as char),
        97 <= key <= 122 ==> spec_tty_char(spec_of_tty_char(key as int)) == Some(
            (key - 32) as char,
        ),
        key == 10 ==> spec_tty_char(spec_of_tty_char(key as int)) == Some('\n'),
        key == 13 ==> spec_tty_char(spec_of_tty_char(key as int)) == Some('\r'),
{
}

} // verus!
