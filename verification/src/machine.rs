//! The state behind the web front end: the processor, the teletype page it
//! prints on, and the tape file chosen by the user.
use vstd::prelude::*;
use crate::emulator::{
    MachineView, State, StepError, initial_machine, law_step_advances_time, machine_wf, spec_step,
};
use crate::instruction::{Instruction, instruction_wf};
use crate::io::{Mode, spec_of_tty_char, spec_tty_char};
use crate::tape::Tape;
use crate::terminal::{Terminal, TerminalView, blank_page, spec_push_string, spec_write_char};

verus! {

/// The name and length of the tape file mounted by the user.
pub struct TapeFile {
    pub name: String,
    pub length: usize,
}

impl TapeFile {
    /// A tape file with the given name and length.
    pub fn new(name: String, length: usize) -> (r: TapeFile)
        ensures
            r.name@ == name@,
            r.length == length,
    {
        TapeFile { name, length }
    }
}

/// The processor, its teletype page, the mounted tape file and whether the
/// memory inspector is shown.
pub struct MachineState {
    pub emulator: State,
    pub terminal: Terminal,
    pub tape_file: Option<TapeFile>,
    pub show_memory: bool,
}

/// The page after the text that an instruction printed, if any.
pub open spec fn page_after(t: TerminalView, out: Option<Seq<char>>) -> TerminalView {
    match out {
        Some(text) => spec_push_string(t, text),
        None => t,
    }
}

/// Whether a key typed now can be stored: the channel does not wait for
/// input at an address outside the memory.
pub open spec fn input_fits(m: MachineView) -> bool {
    m.io.state == Mode::TermInput && m.io.iacw <= m.io.tacw ==> (m.io.iacw as int) < m.memory.len()
}

/// A key typed at the terminal: when the channel waits for terminal input,
/// the key's word (lower case as upper case) is stored at the initial
/// address control word, which advances, as long as it has not passed the
/// terminal address control word, and the key is echoed on the page as
/// the teletype shows it. In other modes nothing happens.
pub open spec fn spec_key_input(m: MachineView, t: TerminalView, key: u8) -> (
    MachineView,
    TerminalView,
) {
    if m.io.state == Mode::TermInput {
        let v = spec_of_tty_char(key as int);
        let m2 = if m.io.iacw <= m.io.tacw {
            MachineView {
                memory: m.memory.update(m.io.iacw as int, v as u32),
                io: crate::io::IOView { iacw: ((m.io.iacw + 1) % 0o1000000) as u32, ..m.io },
                ..m
            }
        } else {
            m
        };
        (
            m2,
            match spec_tty_char(v) {
                Some(c) => spec_write_char(t, c),
                None => t,
            },
        )
    } else {
        (m, t)
    }
}

impl MachineState {
    /// A stopped machine with the given memory and tape, a blank page, no
    /// tape file and the memory inspector hidden.
    pub fn new(memory: Vec<u32>, tape: Tape) -> (r: MachineState)
        ensures
            r.emulator@ == initial_machine(memory@, tape@),
            r.terminal@ == blank_page(),
            r.tape_file is None,
            !r.show_memory,
    {
        MachineState {
            emulator: State::new(memory, tape),
            terminal: Terminal::new(),
            tape_file: None,
            show_memory: false,
        }
    }

    /// Executes one decoded instruction taking `instruction_time`
    /// microseconds, and prints what it sends to the terminal.
    pub fn step(&mut self, instruction: Instruction, instruction_time: u64) -> (r: Result<
        (),
        StepError,
    >)
        requires
            machine_wf(old(self).emulator@),
            instruction_wf(instruction),
        ensures
            match spec_step(old(self).emulator@, instruction, instruction_time as int) {
                Ok(v) => {
                    &&& r is Ok
                    &&& final(self).emulator@ == v.0
                    &&& machine_wf(v.0)
                    &&& final(self).terminal@ == page_after(old(self).terminal@, v.1)
                },
                Err(e) => r == Err::<(), StepError>(e),
            },
            r is Ok ==> final(self).emulator.time_microseconds == old(self).emulator.time_microseconds
                + instruction_time,
            final(self).show_memory == old(self).show_memory,
            final(self).tape_file == old(self).tape_file,
    {
        proof {
            law_step_advances_time(old(self).emulator@, instruction, instruction_time as int);
        }
        match self.emulator.step(instruction, instruction_time) {
            Ok(Some(text)) => {
                self.terminal.push_chars(&text);
                Ok(())
            },
            Ok(None) => Ok(()),
            Err(e) => Err(e),
        }
    }

    /// A key typed at the terminal (see `spec_key_input`).
    pub fn input_async(&mut self, key_code: u8)
        requires
            machine_wf(old(self).emulator@),
            input_fits(old(self).emulator@),
        ensures
            machine_wf(final(self).emulator@),
            (final(self).emulator@, final(self).terminal@) == spec_key_input(
                old(self).emulator@,
                old(self).terminal@,
                key_code,
            ),
            final(self).show_memory == old(self).show_memory,
            final(self).tape_file == old(self).tape_file,
    {
        let echo = self.emulator.io.input_async(&mut self.emulator.memory, key_code);
        proof {
            if old(self).emulator.io.state == Mode::TermInput && old(self).emulator.io.iacw
                <= old(self).emulator.io.tacw {
                crate::emulator::lemma_update_words(
                    old(self).emulator.memory@,
                    old(self).emulator.io.iacw as int,
                    spec_of_tty_char(key_code as int) as u32,
                );
            }
        }
        match echo {
            Some(c) => self.terminal.write_char(c),
            None => {},
        }
    }
}

/// Where programs start: the machine's P register after a reset.
pub const START_ADDRESS: u32 = 0o540;

/// What a stop switch's lamp shows.
#[derive(Debug, Clone, Copy, PartialEq, Eq, Structural)]
pub enum SwitchLight {
    /// The machine stopped on this switch.
    Stopped,
    /// The switch is set.
    On,
    /// The switch is clear.
    Off,
}

/// The lamp of stop switch `index` given the set switches and those the
/// machine stopped on.
pub open spec fn spec_stop_light(index: nat, stop: u8, stopped: u8) -> SwitchLight {
    if (stopped as int / vstd::arithmetic::power2::pow2(index) as int) % 2 == 1 {
        SwitchLight::Stopped
    } else if (stop as int / vstd::arithmetic::power2::pow2(index) as int) % 2 == 1 {
        SwitchLight::On
    } else {
        SwitchLight::Off
    }
}

/// Whether bit `index` of a switch register is set.
fn bit_set(value: u8, index: u8) -> (r: bool)
    requires
        index < 8,
    ensures
        r == ((value as int / vstd::arithmetic::power2::pow2(index as nat) as int) % 2 == 1),
{
    let r = (value >> index) & 1 == 1;
    proof {
        vstd::arithmetic::power2::lemma2_to64();
        vstd::bits::lemma_u64_shr_is_div(value as u64, index as u64);
    }
    assert(((value >> index) & 1 == 1) == ((value >> index) % 2 == 1)) by (bit_vector);
    assert((value >> index) as u64 == (value as u64) >> (index as u64)) by (bit_vector);
    r
}

/// The lamp of a stop switch (see `spec_stop_light`).
pub fn stop_light(index: u8, stop: u8, stopped: u8) -> (r: SwitchLight)
    requires
        index < 6,
    ensures
        r == spec_stop_light(index as nat, stop, stopped),
{
    if bit_set(stopped, index) {
        SwitchLight::Stopped
    } else if bit_set(stop, index) {
        SwitchLight::On
    } else {
        SwitchLight::Off
    }
}

impl MachineState {
    /// The Reset button: the machine stops, the A register, the index
    /// control and special registers clear, and P returns to the start
    /// address.
    pub fn reset(&mut self)
        ensures
            final(self).emulator@ == (MachineView {
                running: false,
                au: 0,
                al: 0,
                p: START_ADDRESS,
                icr: 0,
                sr: 0,
                ..old(self).emulator@
            }),
            final(self).terminal@ == old(self).terminal@,
            final(self).show_memory == old(self).show_memory,
            final(self).tape_file == old(self).tape_file,
    {
        self.emulator.running = false;
        self.emulator.au = 0;
        self.emulator.al = 0;
        self.emulator.p = START_ADDRESS;
        self.emulator.icr = 0;
        self.emulator.sr = 0;
    }

    /// An assembled program mounted as the tape: the registers reset as by
    /// the Reset button, and the machine runs.
    pub fn run_program(&mut self, tape: Tape)
        ensures
            final(self).emulator@ == (MachineView {
                running: true,
                au: 0,
                al: 0,
                p: START_ADDRESS,
                icr: 0,
                sr: 0,
                io: crate::io::IOView { tape: tape@, ..old(self).emulator@.io },
                ..old(self).emulator@
            }),
            final(self).terminal@ == old(self).terminal@,
            final(self).show_memory == old(self).show_memory,
            final(self).tape_file == old(self).tape_file,
    {
        self.reset();
        self.emulator.io.tape = tape;
        self.emulator.running = true;
    }

    /// A tape chosen by the user mounted, with its file's name and length
    /// recorded.
    pub fn mount_tape(&mut self, name: String, tape: Tape)
        ensures
            final(self).emulator@ == (MachineView {
                io: crate::io::IOView { tape: tape@, ..old(self).emulator@.io },
                ..old(self).emulator@
            }),
            final(self).tape_file matches Some(f) && f.name@ == name@ && f.length == tape@.len(),
            final(self).terminal@ == old(self).terminal@,
            final(self).show_memory == old(self).show_memory,
    {
        let length = tape.len();
        self.tape_file = Some(TapeFile::new(name, length));
        self.emulator.io.tape = tape;
    }

    /// A key press: Enter sends a line feed and then a carriage return,
    /// any other key its own code (see `spec_key_input`).
    pub fn press_key(&mut self, key_code: u8)
        requires
            machine_wf(old(self).emulator@),
            input_fits(old(self).emulator@),
            key_code == 13 ==> input_fits(
                spec_key_input(old(self).emulator@, old(self).terminal@, 10).0,
            ),
        ensures
            machine_wf(final(self).emulator@),
            (final(self).emulator@, final(self).terminal@) == if key_code == 13 {
                let first = spec_key_input(old(self).emulator@, old(self).terminal@, 10);
                spec_key_input(first.0, first.1, 13)
            } else {
                spec_key_input(old(self).emulator@, old(self).terminal@, key_code)
            },
            final(self).show_memory == old(self).show_memory,
            final(self).tape_file == old(self).tape_file,
    {
        if key_code == 13 {
            self.input_async(10);
            self.input_async(13);
        } else {
            self.input_async(key_code);
        }
    }

    /// Flips stop switch `index`.
    pub fn toggle_stop(&mut self, index: u8)
        requires
            index < 6,
        ensures
            final(self).emulator@ == (MachineView {
                stop: old(self).emulator.stop ^ (1u8 << index),
                ..old(self).emulator@
            }),
            final(self).terminal@ == old(self).terminal@,
            final(self).show_memory == old(self).show_memory,
            final(self).tape_file == old(self).tape_file,
    {
        self.emulator.stop = self.emulator.stop ^ (1u8 << index);
    }

    /// Flips skip switch `index`.
    pub fn toggle_skip(&mut self, index: u8)
        requires
            index < 5,
        ensures
            final(self).emulator@ == (MachineView {
                skip: old(self).emulator.skip ^ (1u8 << index),
                ..old(self).emulator@
            }),
            final(self).terminal@ == old(self).terminal@,
            final(self).show_memory == old(self).show_memory,
            final(self).tape_file == old(self).tape_file,
    {
        self.emulator.skip = self.emulator.skip ^ (1u8 << index);
    }
}

/// A register shown in `digits` octal digits: its value cut to that many
/// digits, padded with zeros.
pub fn register(value: u32, digits: usize) -> (r: String)
    requires
        digits <= 10,
    ensures
        r@ == crate::text::spec_octal_padded(
            (value as int % vstd::arithmetic::power2::pow2((3 * digits) as nat) as int) as nat,
            digits as nat,
        ),
{
    proof {
        vstd::arithmetic::power2::lemma2_to64();
    }
    let modulus: u32 = match digits {
        0 => 1,
        1 => 8,
        2 => 64,
        3 => 512,
        4 => 4096,
        5 => 32768,
        6 => 262144,
        7 => 2097152,
        8 => 16777216,
        9 => 134217728,
        _ => 1073741824,
    };
    assert(modulus == vstd::arithmetic::power2::pow2((3 * digits) as nat));
    let v = value % modulus;
    crate::text::format_octal(v as u64, digits)
}

/// The tape that the web front end mounts at start: the text format's
/// frames (see `crate::tape::spec_deserialize_bioctal`).
pub fn load_tape(data: &str) -> (r: Option<Tape>)
    ensures
        r matches Some(t) ==> Some(t@) == crate::tape::spec_deserialize_bioctal(data@)
            && crate::tape::is_tape(t@),
        r is None <==> crate::tape::spec_deserialize_bioctal(data@) is None,
        r is None <==> exists|k: int|
            0 <= k < crate::text::spec_lines(data@).len() && !crate::text::spec_line_ok(
                #[trigger] crate::text::spec_lines(data@)[k],
                64,
            ),
{
    crate::tape::deserialize_bioctal(data)
}

/// A word shown by the memory inspector: six octal digits, marked when it
/// is the word that P addresses.
pub struct InspectorCell {
    pub text: String,
    pub at_p: bool,
}

/// Row `row` of the memory inspector: the address of its first word in six
/// octal digits, and the row's words (eight, or fewer at the end of the
/// memory).
pub fn inspector_row(memory: &Vec<u32>, row: usize, p: u32) -> (r: (String, Vec<InspectorCell>))
    requires
        8 * row < memory@.len(),
    ensures
        r.0@ == crate::text::spec_octal_padded((8 * row) as nat, 6),
        r.1@.len() == (if 8 * row + 8 <= memory@.len() {
            8
        } else {
            memory@.len() - 8 * row
        }),
        forall|i: int|
            0 <= i < r.1@.len() ==> {
                &&& (#[trigger] r.1@[i]).text@ == crate::text::spec_octal_padded(
                    memory@[8 * row + i] as nat,
                    6,
                )
                &&& r.1@[i].at_p == (8 * row + i == p)
            },
{
    let n = memory.len();
    let base = 8 * row;
    let end = if n - base >= 8 {
        base + 8
    } else {
        memory.len()
    };
    let header = crate::text::format_octal(base as u64, 6);
    let mut cells: Vec<InspectorCell> = Vec::new();
    let mut a = base;
    while a < end
        invariant
            base <= a <= end <= memory@.len(),
            base == 8 * row,
            end == (if 8 * row + 8 <= memory@.len() {
                8 * row + 8
            } else {
                memory@.len() as int
            }),
            cells@.len() == a - base,
            forall|i: int|
                0 <= i < cells@.len() ==> {
                    &&& (#[trigger] cells@[i]).text@ == crate::text::spec_octal_padded(
                        memory@[base + i] as nat,
                        6,
                    )
                    &&& cells@[i].at_p == (base + i == p)
                },
        decreases end - a,
    {
        let text = crate::text::format_octal(memory[a] as u64, 6);
        let at_p = a as u64 == p as u64;
        cells.push(InspectorCell { text, at_p });
        a += 1;
    }
    (header, cells)
}

/// Machine time, in microseconds, between two looks at the keyboard and
/// the wall clock by the command-line emulator.
pub const POLL_INTERVAL: u64 = 10_000;

/// Whether the running emulator looks at the keyboard and the wall clock
/// after an instruction: when the elapsed machine time is within the first
/// ten microseconds of a poll interval.
pub fn is_poll_time(time_microseconds: u64) -> (r: bool)
    ensures
        r == (time_microseconds % POLL_INTERVAL < 10),
{
    time_microseconds % POLL_INTERVAL < 10
}

/// Whether an emulator that keeps to the real machine's speed pauses for
/// `delay` microseconds: when the machine time has run ahead of the wall
/// clock by more than the delay.
pub fn should_pause(realtime: bool, wall_clock_micros: u64, time_microseconds: u64, delay: u64) -> (r:
    bool)
    ensures
        r == (realtime && wall_clock_micros + delay < time_microseconds),
{
    realtime && (wall_clock_micros as u128) + (delay as u128) < (time_microseconds as u128)
}

/// Why a run stopped before its time was used up while the machine was
/// still running.
#[derive(Debug, Clone, Copy, PartialEq, Eq, Structural)]
pub enum RunError {
    /// P addresses no word of the memory.
    FetchOutOfRange { address: u32 },
    /// The word at P decodes to no instruction.
    Undecodable { address: u32, word: u32 },
    /// The instruction cannot be carried out.
    Step { error: StepError },
}

/// Whether a decoder can be called on every word and gives either nothing
/// or an instruction with fields of their widths, taking at least one
/// microsecond.
pub open spec fn decoder_wf<F: Fn(u32) -> Option<(Instruction, u64)>>(f: F) -> bool {
    &&& forall|w: u32| call_requires(f, (w,))
    &&& forall|w: u32, d: Option<(Instruction, u64)>|
        call_ensures(f, (w,), d) ==> (d matches Some(x) ==> instruction_wf(x.0) && x.1 >= 1)
}

/// The outcome of one instruction, `spec_step`, kept folded in statements
/// about runs of many instructions.
#[verifier::opaque]
pub open spec fn step_outcome(m: MachineView, i: Instruction, time: int) -> crate::emulator::Outcome {
    spec_step(m, i, time)
}

/// The machine and its page.
pub type RunState = (MachineView, TerminalView);

/// Whether a frame goes on from `a`: the machine runs, the frame's time is
/// not used up, and P addresses a word of the memory.
pub open spec fn frame_goes_on(a: RunState, budget: u64) -> bool {
    &&& a.0.running
    &&& a.0.time_microseconds < budget
    &&& (a.0.p as int) < a.0.memory.len()
}

/// One step of a frame from `a` to `b`: the frame goes on, `decode` gives
/// an instruction and its time for the word at P, and carrying it out
/// leads to `b`'s machine, with its output printed on the page.
pub open spec fn frame_step<F: Fn(u32) -> Option<(Instruction, u64)>>(
    a: RunState,
    b: RunState,
    budget: u64,
    decode: F,
) -> bool {
    &&& frame_goes_on(a, budget)
    &&& exists|d: (Instruction, u64)|
        #[trigger] call_ensures(decode, (a.0.memory[a.0.p as int],), Some(d)) && (step_outcome(
            a.0,
            d.0,
            d.1 as int,
        ) matches Ok(v) && b == (v.0, page_after(a.1, v.1)))
}

/// A run of a frame: states each reached from the one before by a step of
/// the frame.
pub open spec fn frame_run<F: Fn(u32) -> Option<(Instruction, u64)>>(
    trace: Seq<RunState>,
    budget: u64,
    decode: F,
) -> bool {
    &&& trace.len() >= 1
    &&& forall|k: int|
        0 <= k < trace.len() - 1 ==> frame_step(#[trigger] trace[k], trace[k + 1], budget, decode)
}

/// How a frame whose last state is `last` ends, leaving `after`: it ends
/// well when the machine has stopped or the frame's time is used up; it is
/// refused when P addresses no word, when the word at P decodes to nothing,
/// or when the instruction it decodes to cannot be carried out.
pub open spec fn frame_end<F: Fn(u32) -> Option<(Instruction, u64)>>(
    last: RunState,
    budget: u64,
    decode: F,
    r: Result<(), RunError>,
    after: RunState,
) -> bool {
    match r {
        Ok(()) => after == last && (!last.0.running || last.0.time_microseconds >= budget),
        Err(RunError::FetchOutOfRange { address }) => {
            &&& after == last
            &&& last.0.running && last.0.time_microseconds < budget
            &&& (last.0.p as int) >= last.0.memory.len()
            &&& address == last.0.p
        },
        Err(RunError::Undecodable { address, word }) => {
            &&& after == last
            &&& frame_goes_on(last, budget)
            &&& address == last.0.p
            &&& word == last.0.memory[last.0.p as int]
            &&& call_ensures(decode, (word,), None)
        },
        Err(RunError::Step { error }) => {
            &&& frame_goes_on(last, budget)
            &&& exists|d: (Instruction, u64)|
                #[trigger] call_ensures(decode, (last.0.memory[last.0.p as int],), Some(d))
                    && step_outcome(last.0, d.0, d.1 as int) == Err::<
                    (MachineView, Option<Seq<char>>),
                    StepError,
                >(error)
        },
    }
}

impl MachineState {
    /// One instruction carried out (see `step`), stated through the folded
    /// outcome.
    fn step_in_run(&mut self, instruction: Instruction, time: u64) -> (r: Result<(), StepError>)
        requires
            machine_wf(old(self).emulator@),
            instruction_wf(instruction),
        ensures
            match step_outcome(old(self).emulator@, instruction, time as int) {
                Ok(v) => {
                    &&& r is Ok
                    &&& final(self).emulator@ == v.0
                    &&& machine_wf(v.0)
                    &&& final(self).terminal@ == page_after(old(self).terminal@, v.1)
                },
                Err(e) => r == Err::<(), StepError>(e),
            },
            r is Ok ==> final(self).emulator.time_microseconds == old(self).emulator.time_microseconds
                + time,
            final(self).show_memory == old(self).show_memory,
            final(self).tape_file == old(self).tape_file,
    {
        proof {
            reveal(step_outcome);
        }
        self.step(instruction, time)
    }

    /// One frame of the web front end: when the machine runs, the frame's
    /// clock starts at zero, and instructions are fetched from P, decoded by
    /// `decode` and carried out, printing on the page, until the machine
    /// stops or the frame's `budget` of microseconds is used up (see
    /// `frame_run` and `frame_end`).
    #[verifier::rlimit(50)]
    pub fn run_frame<F: Fn(u32) -> Option<(Instruction, u64)>>(
        &mut self,
        budget: u64,
        decode: &F,
    ) -> (r: Result<(), RunError>)
        requires
            machine_wf(old(self).emulator@),
            decoder_wf(*decode),
        ensures
            r is Ok ==> machine_wf(final(self).emulator@),
            !old(self).emulator.running ==> r is Ok && final(self).emulator@ == old(
                self,
            ).emulator@ && final(self).terminal@ == old(self).terminal@,
            old(self).emulator.running ==> exists|trace: Seq<RunState>|
                {
                    &&& frame_run(trace, budget, *decode)
                    &&& trace[0] == (
                        MachineView { time_microseconds: 0, ..old(self).emulator@ },
                        old(self).terminal@,
                    )
                    &&& #[trigger] frame_end(
                        trace.last(),
                        budget,
                        *decode,
                        r,
                        (final(self).emulator@, final(self).terminal@),
                    )
                },
            final(self).show_memory == old(self).show_memory,
            final(self).tape_file == old(self).tape_file,
    {
        if !self.emulator.running {
            return Ok(());
        }
        self.emulator.time_microseconds = 0;
        let ghost start: RunState = (self.emulator@, self.terminal@);
        assert(start == (
            MachineView { time_microseconds: 0, ..old(self).emulator@ },
            old(self).terminal@,
        ));
        let ghost mut trace: Seq<RunState> = seq![start];
        while self.emulator.running && self.emulator.time_microseconds < budget
            invariant
                old(self).emulator.running,
                start == (
                    MachineView { time_microseconds: 0, ..old(self).emulator@ },
                    old(self).terminal@,
                ),
                machine_wf(self.emulator@),
                decoder_wf(*decode),
                frame_run(trace, budget, *decode),
                trace[0] == start,
                trace.last() == (self.emulator@, self.terminal@),
                self.show_memory == old(self).show_memory,
                self.tape_file == old(self).tape_file,
            decreases if self.emulator.time_microseconds < budget {
                budget - self.emulator.time_microseconds
            } else {
                0
            },
        {
            let ghost last = trace.last();
            let p = self.emulator.p;
            if p as usize >= self.emulator.memory.len() {
                let r = Err(RunError::FetchOutOfRange { address: p });
                assert(frame_end(last, budget, *decode, r, (self.emulator@, self.terminal@)));
                return r;
            }
            let word = self.emulator.memory[p as usize];
            let decoded = decode(word);
            match decoded {
                None => {
                    let r = Err(RunError::Undecodable { address: p, word });
                    assert(frame_end(last, budget, *decode, r, (self.emulator@, self.terminal@)));
                    return r;
                },
                Some((instruction, time)) => {
                    assert(time >= 1 && instruction_wf(instruction));
                    let ghost d = (instruction, time);
                    assert(call_ensures(*decode, (last.0.memory[last.0.p as int],), Some(d)));
                    match self.step_in_run(instruction, time) {
                        Ok(()) => {
                            proof {
                                let next: RunState = (self.emulator@, self.terminal@);
                                assert(frame_step(last, next, budget, *decode));
                                let old_trace = trace;
                                trace = trace.push(next);
                                assert forall|k: int| 0 <= k < trace.len() - 1 implies frame_step(
                                    #[trigger] trace[k],
                                    trace[k + 1],
                                    budget,
                                    *decode,
                                ) by {
                                    if k < old_trace.len() - 1 {
                                        assert(trace[k] == old_trace[k]);
                                        assert(trace[k + 1] == old_trace[k + 1]);
                                    } else {
                                        assert(trace[k] == last);
                                    }
                                }
                            }
                        },
                        Err(error) => {
                            let r = Err(RunError::Step { error });
                            proof {
                                let after: RunState = (self.emulator@, self.terminal@);
                                assert(frame_end(last, budget, *decode, r, after));
                            }
                            return r;
                        },
                    }
                },
            }
        }
        proof {
            assert(frame_end(trace.last(), budget, *decode, Ok(()), (self.emulator@, self.terminal@)));
        }
        Ok(())
    }
}

} // verus!
