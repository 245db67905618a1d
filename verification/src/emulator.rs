//! The processor: registers, memory, and the execution of one decoded
//! instruction.
use vstd::prelude::*;
use crate::arith::{
    add_18, sub_18, add_36, sub_36, mul_18, div, rshift_18, rshift_36, sign_extend_12_to_18,
    complement_18, ones_to_signed_18, wrapping_add_18, wrapping_sub_18, spec_add_18, spec_add_36, spec_mul_18,
    spec_div, spec_rshift_18, spec_rshift_36, spec_sign_extend_12_to_18, ones_value_18,
    is_negative_18, is_negative_36,
};
use crate::bits::{
    lemma_bank_bits, lemma_double_bits, lemma_join_bits, lemma_merge_bits, lemma_register_bits,
    lemma_rotate_bits, lemma_rotate_double_bits, lemma_truncate_bits, lemma_word_bits,
};
use crate::instruction::{Instruction, instruction_wf};
use crate::io::{IO, IOView, Mode, io_wf, spec_mode_of, spec_tty_text};
use crate::tape::Tape;
use crate::text::{format_binary, format_octal, spec_octal_padded, spec_padded};
use crate::memory::all_words;

verus! {

/// Address of the real-time clock register in memory.
pub const RTC_ADDRESS: usize = 0o15;

/// The machine's registers, switches, I/O channel and memory.
pub struct State {
    pub time_microseconds: u64,
    pub running: bool,
    pub icr: u8,
    pub sr: u8,
    pub au: u32,
    pub al: u32,
    pub p: u32,
    pub compare: bool,
    pub equal: bool,
    pub greater: bool,
    pub carry: bool,
    pub stop: u8,
    pub stopped: u8,
    pub skip: u8,
    pub rtc_enabled: bool,
    pub real_time_clock: u64,
    pub io: IO,
    pub memory: Vec<u32>,
}

/// The machine as plain values.
pub struct MachineView {
    pub time_microseconds: u64,
    pub running: bool,
    pub icr: u8,
    pub sr: u8,
    pub au: u32,
    pub al: u32,
    pub p: u32,
    pub compare: bool,
    pub equal: bool,
    pub greater: bool,
    pub carry: bool,
    pub stop: u8,
    pub stopped: u8,
    pub skip: u8,
    pub rtc_enabled: bool,
    pub real_time_clock: u64,
    pub io: IOView,
    pub memory: Seq<u32>,
}

impl View for State {
    type V = MachineView;

    open spec fn view(&self) -> MachineView {
        MachineView {
            time_microseconds: self.time_microseconds,
            running: self.running,
            icr: self.icr,
            sr: self.sr,
            au: self.au,
            al: self.al,
            p: self.p,
            compare: self.compare,
            equal: self.equal,
            greater: self.greater,
            carry: self.carry,
            stop: self.stop,
            stopped: self.stopped,
            skip: self.skip,
            rtc_enabled: self.rtc_enabled,
            real_time_clock: self.real_time_clock,
            io: self.io@,
            memory: self.memory@,
        }
    }
}

/// Every register holds a value of its width: 3 bits for the index
/// control register, 5 for the special register and the skip switches, 6
/// for the stop switches, 18 for the accumulators, the program counter and
/// each memory word.
pub open spec fn machine_wf(s: MachineView) -> bool {
    &&& s.icr < 8
    &&& s.sr < 32
    &&& s.au <= 0o777777
    &&& s.al <= 0o777777
    &&& s.p <= 0o777777
    &&& s.stop < 64
    &&& s.stopped < 64
    &&& s.skip < 32
    &&& io_wf(s.io)
    &&& all_words(s.memory)
}

/// Why an instruction cannot be carried out.
#[derive(Debug, Clone, Copy, PartialEq, Eq, Structural)]
pub enum StepError {
    /// A memory access outside the memory.
    AddressOutOfRange { address: u32 },
    /// A 36-bit operand at an odd address.
    OddAddress { address: u32 },
    /// An external function code that selects no mode.
    UnknownExternalFunction { code: u32 },
    /// An input transfer from an exhausted tape.
    TapeEmpty,
    /// An output transfer whose initial address lies beyond its terminal
    /// address plus one, or whose terminal address is outside the memory.
    OutputRange { iacw: u32, tacw: u32 },
    /// A shift count that the shift cannot take.
    ShiftOutOfRange { count: u8 },
    /// A value too wide for the register it is entered into.
    RegisterOverflow { value: u8 },
    /// The elapsed time or the real-time clock no longer fits its counter.
    ClockOverflow,
}

/// What one instruction yields: the next machine state and the text it
/// sent to the terminal, if any.
pub type Outcome = Result<(MachineView, Option<Seq<char>>), StepError>;

/// The program counter advanced by one word.
pub open spec fn advance(s: MachineView) -> MachineView {
    MachineView { p: ((s.p + 1) % 0o1000000) as u32, ..s }
}

/// The outcome of an instruction that continues with the next word.
pub open spec fn continue_with(s: MachineView) -> Outcome {
    Ok((advance(s), None))
}

/// The outcome of an instruction that has set the program counter itself.
pub open spec fn jump_with(s: MachineView) -> Outcome {
    Ok((s, None))
}

/// Address of the B register: the word selected by the index control
/// register, with 0 standing for 8.
pub open spec fn spec_b_addr(s: MachineView) -> int {
    if s.icr == 0 {
        8
    } else {
        s.icr as int
    }
}

/// The word at `addr`, or an error outside the memory.
pub open spec fn spec_read(s: MachineView, addr: int) -> Result<u32, StepError> {
    if 0 <= addr < s.memory.len() {
        Ok(s.memory[addr])
    } else {
        Err(StepError::AddressOutOfRange { address: addr as u32 })
    }
}

/// The machine with `data` written at `addr`, or an error outside the
/// memory.
pub open spec fn spec_write(s: MachineView, addr: int, data: u32) -> Result<MachineView, StepError> {
    if 0 <= addr < s.memory.len() {
        Ok(MachineView { memory: s.memory.update(addr, data), ..s })
    } else {
        Err(StepError::AddressOutOfRange { address: addr as u32 })
    }
}

/// The B register.
pub open spec fn spec_get_b(s: MachineView) -> Result<u32, StepError> {
    spec_read(s, spec_b_addr(s))
}

/// The machine with the B register set.
pub open spec fn spec_set_b(s: MachineView, b: u32) -> Result<MachineView, StepError> {
    spec_write(s, spec_b_addr(s), b)
}

/// The address `y` in the program counter's bank: the upper six bits of P
/// with `y` as the lower twelve.
pub open spec fn spec_p_addr(s: MachineView, y: int) -> int {
    (s.p as int / 4096) * 4096 + y
}

/// The address `y` in the bank that the special register selects when its
/// bit 3 is set (bits 0-2 and 4 give the bank), else in P's bank.
pub open spec fn spec_local_addr(s: MachineView, y: int) -> int {
    if s.sr % 16 >= 8 {
        ((s.sr as int % 8) + (s.sr as int / 16) * 8) * 4096 + y
    } else {
        spec_p_addr(s, y)
    }
}

/// `addr` plus the B register, modulo 2^18, when `indexed`.
pub open spec fn spec_index(s: MachineView, addr: int, indexed: bool) -> Result<int, StepError> {
    if indexed {
        match spec_get_b(s) {
            Ok(b) => Ok((addr + b) % 0o1000000),
            Err(e) => Err(e),
        }
    } else {
        Ok(addr)
    }
}

/// The operand address of a memory reference: `y` in the local bank,
/// indexed by B when `indexed`.
pub open spec fn spec_operand_addr(s: MachineView, y: int, indexed: bool) -> Result<
    int,
    StepError,
> {
    spec_index(s, spec_local_addr(s, y), indexed)
}

/// The operand of a memory reference.
pub open spec fn spec_operand(s: MachineView, y: int, indexed: bool) -> Result<u32, StepError> {
    match spec_operand_addr(s, y, indexed) {
        Ok(a) => spec_read(s, a),
        Err(e) => Err(e),
    }
}

/// The double word at an even address: the word there is the lower half,
/// the next word the upper half.
pub open spec fn spec_read_36(s: MachineView, addr: int) -> Result<u64, StepError> {
    if addr % 2 != 0 {
        Err(StepError::OddAddress { address: addr as u32 })
    } else {
        match spec_read(s, addr) {
            Ok(lower) => match spec_read(s, addr + 1) {
                Ok(upper) => Ok((upper * 0o1000000 + lower) as u64),
                Err(e) => Err(e),
            },
            Err(e) => Err(e),
        }
    }
}

/// The 36-bit A register: AU above AL.
pub open spec fn spec_au_al(s: MachineView) -> int {
    s.au * 0o1000000 + s.al
}

/// The machine with a 36-bit value in the A register.
pub open spec fn spec_set_au_al(s: MachineView, a: int) -> MachineView {
    MachineView {
        al: (a % 0o1000000) as u32,
        au: ((a / 0o1000000) % 0o1000000) as u32,
        ..s
    }
}

/// A stopped machine with all registers cleared, the given memory and the
/// given tape mounted in terminal output mode.
pub open spec fn initial_machine(memory: Seq<u32>, tape: Seq<u8>) -> MachineView {
    MachineView {
        time_microseconds: 0,
        running: false,
        icr: 0,
        sr: 0,
        au: 0,
        al: 0,
        p: 0,
        compare: false,
        equal: false,
        greater: false,
        carry: false,
        stop: 0,
        stopped: 0,
        skip: 0,
        rtc_enabled: false,
        real_time_clock: 0,
        io: IOView { tacw: 0, iacw: 0, state: Mode::TermOutput, tape },
        memory,
    }
}

impl State {
    /// A stopped machine with all registers cleared, the given memory and
    /// the given tape mounted in terminal output mode.
    pub fn new(memory: Vec<u32>, tape: Tape) -> (r: State)
        ensures
            r@ == initial_machine(memory@, tape@),
    {
        State {
            time_microseconds: 0,
            running: false,
            icr: 0,
            sr: 0,
            au: 0,
            al: 0,
            p: 0,
            compare: false,
            equal: false,
            greater: false,
            carry: false,
            stop: 0,
            stopped: 0,
            skip: 0,
            rtc_enabled: false,
            real_time_clock: 0,
            memory,
            io: IO::new(tape),
        }
    }

    fn b_addr(&self) -> (r: usize)
        ensures
            r == spec_b_addr(self@),
    {
        if self.icr == 0 {
            8
        } else {
            self.icr as usize
        }
    }

    fn read(&self, addr: u32) -> (r: Result<u32, StepError>)
        ensures
            r == spec_read(self@, addr as int),
    {
        if (addr as usize) < self.memory.len() {
            Ok(self.memory[addr as usize])
        } else {
            Err(StepError::AddressOutOfRange { address: addr })
        }
    }

    fn write(&mut self, addr: u32, data: u32) -> (r: Result<(), StepError>)
        ensures
            match spec_write(old(self)@, addr as int, data) {
                Ok(s) => r is Ok && final(self)@ == s,
                Err(e) => r == Err::<(), StepError>(e) && final(self)@ == old(self)@,
            },
    {
        if (addr as usize) < self.memory.len() {
            self.memory.set(addr as usize, data);
            Ok(())
        } else {
            Err(StepError::AddressOutOfRange { address: addr })
        }
    }

    fn get_b(&self) -> (r: Result<u32, StepError>)
        requires
            self.icr < 8,
        ensures
            r == spec_get_b(self@),
    {
        let a = self.b_addr();
        if a < self.memory.len() {
            Ok(self.memory[a])
        } else {
            Err(StepError::AddressOutOfRange { address: a as u32 })
        }
    }

    fn set_b(&mut self, b: u32) -> (r: Result<(), StepError>)
        requires
            old(self).icr < 8,
        ensures
            match spec_set_b(old(self)@, b) {
                Ok(s) => r is Ok && final(self)@ == s,
                Err(e) => r == Err::<(), StepError>(e) && final(self)@ == old(self)@,
            },
    {
        let a = self.b_addr();
        self.write(a as u32, b)
    }

    fn get_au_al(&self) -> (r: u64)
        requires
            self.au <= 0o777777,
            self.al <= 0o777777,
        ensures
            r == spec_au_al(self@),
            r <= 0o777777_777777,
    {
        let au = self.au as u64;
        let al = self.al as u64;
        proof {
            lemma_join_bits(au, al);
        }
        (au << 18) | al
    }

    fn set_au_al(&mut self, a: u64)
        requires
            a <= 0o777777_777777,
        ensures
            final(self)@ == spec_set_au_al(old(self)@, a as int),
            final(self).au <= 0o777777,
            final(self).al <= 0o777777,
    {
        proof {
            lemma_double_bits(a);
        }
        self.al = (a & 0o777777) as u32;
        self.au = ((a >> 18) & 0o777777) as u32;
    }

    fn read_36(&self, addr: u32) -> (r: Result<u64, StepError>)
        requires
            addr <= 0o777777,
            all_words(self.memory@),
        ensures
            r == spec_read_36(self@, addr as int),
            r matches Ok(v) ==> v <= 0o777777_777777,
    {
        if addr % 2 != 0 {
            return Err(StepError::OddAddress { address: addr });
        }
        let lower = self.read(addr)?;
        let upper = self.read(addr + 1)?;
        let u = upper as u64;
        let l = lower as u64;
        proof {
            lemma_join_bits(u, l);
        }
        Ok((u << 18) | l)
    }

    fn p_addr(&self, y: u16) -> (r: u32)
        requires
            self.p <= 0o777777,
            y <= 0o7777,
        ensures
            r == spec_p_addr(self@, y as int),
            r <= 0o777777,
    {
        let p = self.p;
        let yy = y as u32;
        proof {
            lemma_bank_bits(p, 0, yy);
        }
        (self.p & 0o770000) | (y as u32)
    }

    fn local_addr(&self, y: u16) -> (r: u32)
        requires
            self.p <= 0o777777,
            self.sr < 32,
            y <= 0o7777,
        ensures
            r == spec_local_addr(self@, y as int),
            r <= 0o777777,
    {
        let sr = self.sr;
        proof {
            lemma_register_bits(sr, 0, 0);
        }
        if self.sr & 0b1000 != 0 {
            let upper_bits = (self.sr & 0b111) | ((self.sr & 0b10000) >> 1);

            let ub = upper_bits as u32;
            let yy = y as u32;
            proof {
                lemma_bank_bits(0, ub, yy);
            }
            (ub << 12) | yy
        } else {
            self.p_addr(y)
        }
    }

    fn index(&self, addr: u32, indexed: bool) -> (r: Result<u32, StepError>)
        requires
            addr <= 0o777777,
            self.icr < 8,
            all_words(self.memory@),
        ensures
            r matches Ok(a) ==> a <= 0o777777,
            match spec_index(self@, addr as int, indexed) {
                Ok(a) => r == Ok::<u32, StepError>(a as u32),
                Err(e) => r == Err::<u32, StepError>(e),
            },
    {
        if indexed {
            let b = self.get_b()?;
            Ok(wrapping_add_18(addr, b))
        } else {
            Ok(addr)
        }
    }

    fn operand_addr(&self, y: u16, indexed: bool) -> (r: Result<u32, StepError>)
        requires
            machine_wf(self@),
            y <= 0o7777,
        ensures
            r matches Ok(a) ==> a <= 0o777777,
            match spec_operand_addr(self@, y as int, indexed) {
                Ok(a) => r == Ok::<u32, StepError>(a as u32),
                Err(e) => r == Err::<u32, StepError>(e),
            },
    {
        let a = self.local_addr(y);
        self.index(a, indexed)
    }

    fn operand(&self, y: u16, indexed: bool) -> (r: Result<u32, StepError>)
        requires
            machine_wf(self@),
            y <= 0o7777,
        ensures
            r == spec_operand(self@, y as int, indexed),
            r matches Ok(v) ==> v <= 0o777777,
    {
        let a = self.operand_addr(y, indexed)?;
        self.read(a)
    }
}

/// The text an output transfer produced, as plain values.
pub open spec fn output_view(o: Option<Vec<char>>) -> Option<Seq<char>> {
    match o {
        Some(t) => Some(t@),
        None => None,
    }
}

/// Whether an executed result `r`, leaving the machine `after`, is the
/// outcome `spec`.
pub open spec fn outcome_matches(
    spec: Outcome,
    r: Result<Option<Vec<char>>, StepError>,
    after: MachineView,
) -> bool {
    match spec {
        Ok(v) => match r {
            Ok(o) => after == v.0 && output_view(o) == v.1 && machine_wf(after),
            Err(_) => false,
        },
        Err(e) => r == Err::<Option<Vec<char>>, StepError>(e),
    }
}

/// The instructions that take one operand word from memory and act on the
/// registers.
#[derive(Clone, Copy, PartialEq, Eq, Structural)]
pub enum LoadOp {
    EnterAu,
    EnterAl,
    AddAl,
    SubAl,
    SelectiveSubstitute,
    Multiply,
    Divide,
    EnterB,
}

/// The effect of a load instruction given its operand `v`.
pub open spec fn spec_apply_load(s: MachineView, op: LoadOp, v: u32) -> Outcome {
    match op {
        LoadOp::EnterAu => continue_with(MachineView { au: v, ..s }),
        LoadOp::EnterAl => continue_with(MachineView { al: v, ..s }),
        LoadOp::AddAl => continue_with(MachineView { al: spec_add_18(s.al as int, v as int) as u32, ..s }),
        LoadOp::SubAl => continue_with(
            MachineView { al: spec_add_18(s.al as int, 0o777777 - v) as u32, ..s },
        ),
        LoadOp::SelectiveSubstitute => continue_with(
            MachineView { al: (s.al & ((0o777777 - s.au) as u32)) | (v & s.au), ..s },
        ),
        LoadOp::Multiply => continue_with(spec_set_au_al(s, spec_mul_18(s.al as int, v as int))),
        LoadOp::Divide => {
            let qr = spec_div(spec_au_al(s), v as int);
            continue_with(MachineView { al: qr.0 as u32, au: qr.1 as u32, ..s })
        },
        LoadOp::EnterB => match spec_set_b(s, v) {
            Ok(t) => continue_with(t),
            Err(e) => Err(e),
        },
    }
}

/// A load instruction: the operand at `y` (indexed by B when `indexed`)
/// acted on by `op`.
pub open spec fn spec_load(s: MachineView, y: int, indexed: bool, op: LoadOp) -> Outcome {
    match spec_operand(s, y, indexed) {
        Ok(v) => spec_apply_load(s, op, v),
        Err(e) => Err(e),
    }
}

/// Compare AL with the operand as signed one's complement values.
pub open spec fn spec_compare_al(s: MachineView, y: int) -> Outcome {
    match spec_operand(s, y, false) {
        Ok(v) => continue_with(
            MachineView {
                compare: true,
                equal: ones_value_18(s.al as int) == ones_value_18(v as int),
                greater: ones_value_18(s.al as int) >= ones_value_18(v as int),
                ..s
            },
        ),
        Err(e) => Err(e),
    }
}

/// Add (or subtract) the 36-bit operand to (from) the A register, in one's
/// complement with end-around carry.
pub open spec fn spec_double(s: MachineView, y: int, indexed: bool, add: bool) -> Outcome {
    match spec_operand_addr(s, y, indexed) {
        Ok(a) => match spec_read_36(s, a) {
            Ok(d) => continue_with(
                spec_set_au_al(
                    s,
                    if add {
                        spec_add_36(spec_au_al(s), d as int)
                    } else {
                        spec_add_36(spec_au_al(s), 0o777777_777777 - d)
                    },
                ),
            ),
            Err(e) => Err(e),
        },
        Err(e) => Err(e),
    }
}

/// What a store instruction writes.
#[derive(Clone, Copy, PartialEq, Eq, Structural)]
pub enum StoreOp {
    Clear,
    B,
    Al,
    Au,
}

/// A store instruction: writes zero, B, AL or AU at the operand address.
pub open spec fn spec_store(s: MachineView, y: int, indexed: bool, op: StoreOp) -> Outcome {
    match spec_operand_addr(s, y, indexed) {
        Ok(a) => {
            let v: Result<u32, StepError> = match op {
                StoreOp::Clear => Ok(0u32),
                StoreOp::B => spec_get_b(s),
                StoreOp::Al => Ok(s.al),
                StoreOp::Au => Ok(s.au),
            };
            match v {
                Ok(v) => match spec_write(s, a, v) {
                    Ok(t) => continue_with(t),
                    Err(e) => Err(e),
                },
                Err(e) => Err(e),
            }
        },
        Err(e) => Err(e),
    }
}

/// Logical instructions on AL with a word in P's bank.
#[derive(Clone, Copy, PartialEq, Eq, Structural)]
pub enum LogicOp {
    Or,
    And,
    Xor,
}

/// Selective set (or), clear (and) or complement (exclusive or) of AL.
pub open spec fn spec_logic(s: MachineView, y: int, op: LogicOp) -> Outcome {
    match spec_read(s, spec_p_addr(s, y)) {
        Ok(v) => continue_with(
            MachineView {
                al: match op {
                    LogicOp::Or => s.al | v,
                    LogicOp::And => s.al & v,
                    LogicOp::Xor => s.al ^ v,
                },
                ..s
            },
        ),
        Err(e) => Err(e),
    }
}

/// Stores P + 1 at `target` and continues at `target` + 1.
pub open spec fn spec_return_to(s: MachineView, target: int) -> Outcome {
    match spec_write(s, target, ((s.p + 1) % 0o1000000) as u32) {
        Ok(t) => jump_with(MachineView { p: ((target + 1) % 0o1000000) as u32, ..t }),
        Err(e) => Err(e),
    }
}

/// Return jump to the address `y` in P's bank.
pub open spec fn spec_return_jump(s: MachineView, y: int) -> Outcome {
    spec_return_to(s, spec_p_addr(s, y))
}

/// Indirect return jump: the target is the word at `y` in P's bank
/// (indexed by B when `indexed`).
pub open spec fn spec_indirect_return_jump(s: MachineView, y: int, indexed: bool) -> Outcome {
    match spec_index(s, spec_p_addr(s, y), indexed) {
        Ok(a) => match spec_read(s, a) {
            Ok(target) => spec_return_to(s, target as int),
            Err(e) => Err(e),
        },
        Err(e) => Err(e),
    }
}

/// Jump to `y` in P's bank, indexed by B when `indexed`.
pub open spec fn spec_jump(s: MachineView, y: int, indexed: bool) -> Outcome {
    match spec_index(s, spec_p_addr(s, y), indexed) {
        Ok(a) => jump_with(MachineView { p: a as u32, ..s }),
        Err(e) => Err(e),
    }
}

/// Whether a conditional jump is taken: after a comparison, by the
/// comparison's outcome; otherwise by the register's value.
pub open spec fn spec_jump_condition(
    s: MachineView,
    i: Instruction,
    compare: bool,
    equal: bool,
    greater: bool,
) -> bool {
    match i {
        Instruction::JPAUZ { .. } => if compare { equal } else { s.au == 0 },
        Instruction::JPALZ { .. } => if compare { equal } else { s.al == 0 },
        Instruction::JPAUNZ { .. } => if compare { !equal } else { s.au != 0 },
        Instruction::JPALNZ { .. } => if compare { !equal } else { s.al != 0 },
        Instruction::JPAUP { .. } => if compare { greater } else { s.au < 0o400000 },
        Instruction::JPALP { .. } => if compare { greater } else { s.al < 0o400000 },
        Instruction::JPAUNG { .. } => if compare { !greater } else { s.au >= 0o400000 },
        Instruction::JPALNG { .. } => if compare { !greater } else { s.al >= 0o400000 },
        _ => false,
    }
}

/// A conditional jump to `y` in P's bank.
pub open spec fn spec_conditional_jump(s: MachineView, y: int, taken: bool) -> Outcome {
    if taken {
        jump_with(MachineView { p: spec_p_addr(s, y) as u32, ..s })
    } else {
        continue_with(s)
    }
}

/// Indirect jump: continue at the word found at `y` in P's bank.
pub open spec fn spec_indirect_jump(s: MachineView, y: int) -> Outcome {
    match spec_read(s, spec_p_addr(s, y)) {
        Ok(v) => jump_with(MachineView { p: v, ..s }),
        Err(e) => Err(e),
    }
}

/// B skip: skip the next word when B equals the word at `y`, else add one
/// to B.
pub open spec fn spec_b_skip(s: MachineView, y: int) -> Outcome {
    match spec_read(s, spec_p_addr(s, y)) {
        Ok(target) => match spec_get_b(s) {
            Ok(b) => if b == target {
                continue_with(advance(s))
            } else {
                match spec_set_b(s, spec_add_18(b as int, 1) as u32) {
                    Ok(t) => continue_with(t),
                    Err(e) => Err(e),
                }
            },
            Err(e) => Err(e),
        },
        Err(e) => Err(e),
    }
}

/// Index skip: skip the next word when the word at `y` is zero, else
/// count it down by one.
pub open spec fn spec_index_skip(s: MachineView, y: int) -> Outcome {
    let a = spec_p_addr(s, y);
    match spec_read(s, a) {
        Ok(idx) => if idx == 0 {
            continue_with(advance(s))
        } else {
            match spec_write(s, a, (idx - 1) as u32) {
                Ok(t) => continue_with(t),
                Err(e) => Err(e),
            }
        },
        Err(e) => Err(e),
    }
}

/// B jump: when B is not zero, count it down and jump to `y`.
pub open spec fn spec_b_jump(s: MachineView, y: int) -> Outcome {
    match spec_get_b(s) {
        Ok(b) => if b != 0 {
            match spec_set_b(s, (b - 1) as u32) {
                Ok(t) => jump_with(MachineView { p: spec_p_addr(s, y) as u32, ..t }),
                Err(e) => Err(e),
            }
        } else {
            continue_with(s)
        },
        Err(e) => Err(e),
    }
}

/// Replace the bits of the word at `y` in P's bank outside `keep` with
/// `value`.
pub open spec fn spec_store_field(s: MachineView, y: int, keep: u32, value: u32) -> Result<
    MachineView,
    StepError,
> {
    let a = spec_p_addr(s, y);
    match spec_read(s, a) {
        Ok(w) => spec_write(s, a, (w & keep) | value),
        Err(e) => Err(e),
    }
}

/// Enters a constant into B.
pub open spec fn spec_set_b_outcome(s: MachineView, b: u32) -> Outcome {
    match spec_set_b(s, b) {
        Ok(t) => continue_with(t),
        Err(e) => Err(e),
    }
}

/// P advanced past the two address control words that follow an I/O
/// instruction.
pub open spec fn skip_control_words(s: MachineView) -> MachineView {
    MachineView { p: ((s.p + 2) % 0o1000000) as u32, ..s }
}

/// Loads the terminal and initial address control words from the two
/// words after the instruction.
pub open spec fn spec_fetch_control_words(s: MachineView) -> Result<MachineView, StepError> {
    match spec_read(s, (s.p + 1) % 0o1000000) {
        Ok(t) => match spec_read(s, (s.p + 2) % 0o1000000) {
            Ok(i) => Ok(MachineView { io: IOView { tacw: t, iacw: i, ..s.io }, ..s }),
            Err(e) => Err(e),
        },
        Err(e) => Err(e),
    }
}

/// Input transfer: in tape input mode the next frame is stored at the
/// initial address control word, which advances.
pub open spec fn spec_input(s: MachineView) -> Outcome {
    match spec_fetch_control_words(s) {
        Ok(t) => if t.io.state == Mode::TapeInput {
            if t.io.tape.len() == 0 {
                Err(StepError::TapeEmpty)
            } else if t.io.iacw >= t.memory.len() {
                Err(StepError::AddressOutOfRange { address: t.io.iacw })
            } else {
                continue_with(
                    skip_control_words(
                        MachineView {
                            memory: t.memory.update(t.io.iacw as int, t.io.tape[0] as u32),
                            io: IOView {
                                iacw: ((t.io.iacw + 1) % 0o1000000) as u32,
                                tape: t.io.tape.drop_first(),
                                ..t.io
                            },
                            ..t
                        },
                    ),
                )
            }
        } else {
            continue_with(skip_control_words(t))
        },
        Err(e) => Err(e),
    }
}

/// Output transfer: the words from the initial to the terminal address
/// control word go to the terminal.
pub open spec fn spec_output(s: MachineView) -> Outcome {
    match spec_fetch_control_words(s) {
        Ok(t) => if t.io.iacw <= t.io.tacw + 1 && t.io.tacw < t.memory.len() {
            Ok(
                (
                    advance(skip_control_words(t)),
                    Some(spec_tty_text(t.memory.subrange(t.io.iacw as int, t.io.tacw + 1))),
                ),
            )
        } else {
            Err(StepError::OutputRange { iacw: t.io.iacw, tacw: t.io.tacw })
        },
        Err(e) => Err(e),
    }
}

/// External function: the word at the initial address control word selects
/// the channel's mode.
pub open spec fn spec_external_function(s: MachineView) -> Outcome {
    match spec_fetch_control_words(s) {
        Ok(t) => if t.io.iacw >= t.memory.len() {
            Err(StepError::AddressOutOfRange { address: t.io.iacw })
        } else {
            match spec_mode_of(t.memory[t.io.iacw as int] as int) {
                Some(m) => continue_with(
                    skip_control_words(MachineView { io: IOView { state: m, ..t.io }, ..t }),
                ),
                None => Err(StepError::UnknownExternalFunction { code: t.memory[t.io.iacw as int] }),
            }
        },
        Err(e) => Err(e),
    }
}

/// Skip on input: skips the next word unless the channel waits for
/// terminal input that has not arrived (initial equal to terminal address).
pub open spec fn spec_skip_input(s: MachineView) -> Outcome {
    if s.io.state == Mode::TermInput {
        if s.io.iacw != s.io.tacw {
            continue_with(advance(s))
        } else {
            continue_with(s)
        }
    } else {
        continue_with(advance(s))
    }
}

/// An 18-bit word rotated left `n` places (the one's complement left shift).
pub open spec fn rotl_18(x: int, n: nat) -> int
    decreases n,
{
    if n == 0 {
        x
    } else {
        let y = rotl_18(x, (n - 1) as nat);
        (y * 2) % 0o1000000 + y / 0o400000
    }
}

/// A 36-bit word rotated left `n` places.
pub open spec fn rotl_36(x: int, n: nat) -> int
    decreases n,
{
    if n == 0 {
        x
    } else {
        let y = rotl_36(x, (n - 1) as nat);
        (y * 2) % 0o1_000000_000000 + y / 0o400000_000000
    }
}

/// Round: AU, adjusted by the sign bit of AL, goes to AL.
pub open spec fn spec_round(s: MachineView) -> Outcome {
    let msb = s.al as int / 0o400000;
    continue_with(
        MachineView {
            al: if s.au <= 0o377777 {
                spec_add_18(s.au as int, msb)
            } else {
                spec_add_18(s.au as int, 0o777777 - (1 - msb))
            } as u32,
            ..s
        },
    )
}

/// The machine after one decoded instruction, whose comparison flags
/// `compare`, `equal` and `greater` were left by the previous instruction
/// (the machine's own flags are already cleared).
pub open spec fn spec_execute(
    s: MachineView,
    i: Instruction,
    compare: bool,
    equal: bool,
    greater: bool,
) -> Outcome {
    match i {
        Instruction::CMAL { y } => spec_compare_al(s, y as int),
        Instruction::SLSU { y } => spec_load(s, y as int, false, LoadOp::SelectiveSubstitute),
        Instruction::SLSUB { y } => spec_load(s, y as int, true, LoadOp::SelectiveSubstitute),
        Instruction::ENTAU { y } => spec_load(s, y as int, false, LoadOp::EnterAu),
        Instruction::ENTAUB { y } => spec_load(s, y as int, true, LoadOp::EnterAu),
        Instruction::ENTAL { y } => spec_load(s, y as int, false, LoadOp::EnterAl),
        Instruction::ENTALB { y } => spec_load(s, y as int, true, LoadOp::EnterAl),
        Instruction::ADDAL { y } => spec_load(s, y as int, false, LoadOp::AddAl),
        Instruction::ADDALB { y } => spec_load(s, y as int, true, LoadOp::AddAl),
        Instruction::SUBAL { y } => spec_load(s, y as int, false, LoadOp::SubAl),
        Instruction::SUBALB { y } => spec_load(s, y as int, true, LoadOp::SubAl),
        Instruction::ADDA { y } => spec_double(s, y as int, false, true),
        Instruction::ADDAB { y } => spec_double(s, y as int, true, true),
        Instruction::SUBA { y } => spec_double(s, y as int, false, false),
        Instruction::SUBAB { y } => spec_double(s, y as int, true, false),
        Instruction::MULAL { y } => spec_load(s, y as int, false, LoadOp::Multiply),
        Instruction::MULALB { y } => spec_load(s, y as int, true, LoadOp::Multiply),
        Instruction::DIVA { y } => spec_load(s, y as int, false, LoadOp::Divide),
        Instruction::DIVAB { y } => spec_load(s, y as int, true, LoadOp::Divide),
        Instruction::IRJP { y } => spec_indirect_return_jump(s, y as int, false),
        Instruction::IRJPB { y } => spec_indirect_return_jump(s, y as int, true),
        Instruction::ENTB { y } => spec_load(s, y as int, false, LoadOp::EnterB),
        Instruction::ENTBB { y } => spec_load(s, y as int, true, LoadOp::EnterB),
        Instruction::JP { y } => spec_jump(s, y as int, false),
        Instruction::JPB { y } => spec_jump(s, y as int, true),
        Instruction::ENTBK { u } => spec_set_b_outcome(
            s,
            spec_sign_extend_12_to_18(u as int) as u32,
        ),
        Instruction::ENTBKB { u } => match spec_get_b(s) {
            Ok(b) => spec_set_b_outcome(
                s,
                spec_add_18(b as int, spec_sign_extend_12_to_18(u as int)) as u32,
            ),
            Err(e) => Err(e),
        },
        Instruction::CL { y } => spec_store(s, y as int, false, StoreOp::Clear),
        Instruction::CLB { y } => spec_store(s, y as int, true, StoreOp::Clear),
        Instruction::STRB { y } => spec_store(s, y as int, false, StoreOp::B),
        Instruction::STRBB { y } => spec_store(s, y as int, true, StoreOp::B),
        Instruction::STRAL { y } => spec_store(s, y as int, false, StoreOp::Al),
        Instruction::STRALB { y } => spec_store(s, y as int, true, StoreOp::Al),
        Instruction::STRAU { y } => spec_store(s, y as int, false, StoreOp::Au),
        Instruction::STRAUB { y } => spec_store(s, y as int, true, StoreOp::Au),
        Instruction::SLSET { y } => spec_logic(s, y as int, LogicOp::Or),
        Instruction::SLCL { y } => spec_logic(s, y as int, LogicOp::And),
        Instruction::SLCP { y } => spec_logic(s, y as int, LogicOp::Xor),
        Instruction::IJP { y } => spec_indirect_jump(s, y as int),
        Instruction::BSK { y } => spec_b_skip(s, y as int),
        Instruction::ISK { y } => spec_index_skip(s, y as int),
        Instruction::JPAUZ { y } | Instruction::JPALZ { y } | Instruction::JPAUNZ { y }
        | Instruction::JPALNZ { y } | Instruction::JPAUP { y } | Instruction::JPALP { y }
        | Instruction::JPAUNG { y } | Instruction::JPALNG { y } => spec_conditional_jump(
            s,
            y as int,
            spec_jump_condition(s, i, compare, equal, greater),
        ),
        Instruction::ENTALK { u } => continue_with(
            MachineView { al: spec_sign_extend_12_to_18(u as int) as u32, ..s },
        ),
        Instruction::ADDALK { u } => continue_with(
            MachineView {
                al: spec_add_18(s.al as int, spec_sign_extend_12_to_18(u as int)) as u32,
                ..s
            },
        ),
        Instruction::STRICR { y } => match spec_store_field(s, y as int, 0o777700, s.icr as u32) {
            Ok(t) => continue_with(t),
            Err(e) => Err(e),
        },
        Instruction::BJP { y } => spec_b_jump(s, y as int),
        Instruction::STRADR { y } => match spec_store_field(s, y as int, 0o770000, s.al & 0o7777) {
            Ok(t) => continue_with(t),
            Err(e) => Err(e),
        },
        Instruction::STRSR { y } => match spec_store_field(s, y as int, 0o777700, s.sr as u32) {
            Ok(t) => continue_with(MachineView { sr: t.sr & 0b10111, ..t }),
            Err(e) => Err(e),
        },
        Instruction::RJP { y } => spec_return_jump(s, y as int),
        Instruction::IN { .. } => spec_input(s),
        Instruction::OUT { .. } => spec_output(s),
        Instruction::EXF { .. } => spec_external_function(s),
        Instruction::RTC => continue_with(MachineView { rtc_enabled: true, ..s }),
        Instruction::SKPIIN { .. } => spec_skip_input(s),
        Instruction::SKPOIN { .. } | Instruction::SKPFIN { .. } => continue_with(advance(s)),
        Instruction::RSHA { k } => if is_negative_36(spec_au_al(s)) && k > 36 {
            Err(StepError::ShiftOutOfRange { count: k })
        } else {
            continue_with(spec_set_au_al(s, spec_rshift_36(spec_au_al(s), k as nat)))
        },
        Instruction::RSHAU { k } => if k >= 32 || (is_negative_18(s.au as int) && k > 18) {
            Err(StepError::ShiftOutOfRange { count: k })
        } else {
            continue_with(MachineView { au: spec_rshift_18(s.au as int, k as nat) as u32, ..s })
        },
        Instruction::RSHAL { k } => if k >= 32 || (is_negative_18(s.al as int) && k > 18) {
            Err(StepError::ShiftOutOfRange { count: k })
        } else {
            continue_with(MachineView { al: spec_rshift_18(s.al as int, k as nat) as u32, ..s })
        },
        Instruction::LSHAU { k } => continue_with(
            MachineView { au: rotl_18(s.au as int, k as nat) as u32, ..s },
        ),
        Instruction::LSHAL { k } => continue_with(
            MachineView { al: rotl_18(s.al as int, k as nat) as u32, ..s },
        ),
        Instruction::LSHA { k } => continue_with(
            spec_set_au_al(s, rotl_36(spec_au_al(s), k as nat)),
        ),
        Instruction::RND => spec_round(s),
        Instruction::CPAL => continue_with(
            MachineView { al: if s.al != 0 { (0o777777 - s.al) as u32 } else { s.al }, ..s },
        ),
        Instruction::CPAU => continue_with(
            MachineView { au: if s.au != 0 { (0o777777 - s.au) as u32 } else { s.au }, ..s },
        ),
        Instruction::CPA => continue_with(
            if !(s.au == 0 && s.al == 0) {
                MachineView { au: (0o777777 - s.au) as u32, al: (0o777777 - s.al) as u32, ..s }
            } else {
                s
            },
        ),
        Instruction::ENTICR { k } => if k < 8 {
            continue_with(MachineView { icr: k, ..s })
        } else {
            Err(StepError::RegisterOverflow { value: k })
        },
        Instruction::ENTSR { k } => if k < 32 {
            continue_with(MachineView { sr: k, ..s })
        } else {
            Err(StepError::RegisterOverflow { value: k })
        },
        Instruction::STOP { k } => continue_with(
            if (k & s.stop) != 0 || k >= 32 {
                MachineView { stopped: k & s.stop, running: false, ..s }
            } else {
                s
            },
        ),
        Instruction::CMALB { .. } | Instruction::CMSK { .. } | Instruction::CMSKB { .. }
        | Instruction::SIL => continue_with(s),
    }
}

/// The real-time clock register's value for `rtc` microseconds: 1024
/// ticks a second, truncated to 32 bits.
pub open spec fn rtc_ticks(rtc: int) -> int {
    ((rtc * 1024) / 1_000_000) % 0x1_0000_0000
}

/// The clocks advanced by the instruction's time: elapsed time, and, when
/// enabled, the real-time clock, whose tick count is stored at its
/// register's address.
pub open spec fn spec_tick(s: MachineView, instruction_time: int) -> Result<MachineView, StepError> {
    if s.time_microseconds + instruction_time > u64::MAX {
        Err(StepError::ClockOverflow)
    } else {
        let s1 = MachineView {
            time_microseconds: (s.time_microseconds + instruction_time) as u64,
            stopped: 0,
            ..s
        };
        if s.rtc_enabled {
            let rtc = s.real_time_clock + instruction_time;
            if rtc * 1024 > u64::MAX || rtc_ticks(rtc) > 0o777777 {
                Err(StepError::ClockOverflow)
            } else if RTC_ADDRESS >= s.memory.len() {
                Err(StepError::AddressOutOfRange { address: RTC_ADDRESS as u32 })
            } else {
                Ok(
                    MachineView {
                        real_time_clock: rtc as u64,
                        memory: s1.memory.update(RTC_ADDRESS as int, rtc_ticks(rtc) as u32),
                        ..s1
                    },
                )
            }
        } else {
            Ok(s1)
        }
    }
}

/// One step of the machine: the clocks advance by the instruction's time,
/// the comparison flags of the previous instruction are handed on and
/// cleared, and the instruction is executed.
pub open spec fn spec_step(s: MachineView, i: Instruction, instruction_time: int) -> Outcome {
    match spec_tick(s, instruction_time) {
        Ok(t) => spec_execute(
            MachineView { compare: false, equal: false, greater: false, ..t },
            i,
            s.compare,
            s.equal,
            s.greater,
        ),
        Err(e) => Err(e),
    }
}

pub proof fn lemma_update_words(mem: Seq<u32>, a: int, v: u32)
    requires
        all_words(mem),
        v <= 0o777777,
        0 <= a < mem.len(),
    ensures
        all_words(mem.update(a, v)),
{
    assert forall|i: int| 0 <= i < mem.update(a, v).len() implies #[trigger] mem.update(a, v)[i]
        <= 0o777777 by {
        if i != a {
            assert(mem.update(a, v)[i] == mem[i]);
        }
    }
}

impl State {
    /// Advances P by one word.
    fn advance_p(&mut self)
        requires
            old(self).p <= 0o777777,
        ensures
            final(self)@ == advance(old(self)@),
    {
        self.p = wrapping_add_18(self.p, 1);
    }

    fn write_word(&mut self, addr: u32, data: u32) -> (r: Result<(), StepError>)
        requires
            machine_wf(old(self)@),
            data <= 0o777777,
        ensures
            match spec_write(old(self)@, addr as int, data) {
                Ok(s) => r is Ok && final(self)@ == s && machine_wf(s),
                Err(e) => r == Err::<(), StepError>(e),
            },
    {
        proof {
            if (addr as int) < self.memory@.len() {
                lemma_update_words(self.memory@, addr as int, data);
            }
        }
        self.write(addr, data)
    }

    fn set_b_word(&mut self, b: u32) -> (r: Result<(), StepError>)
        requires
            machine_wf(old(self)@),
            b <= 0o777777,
        ensures
            match spec_set_b(old(self)@, b) {
                Ok(s) => r is Ok && final(self)@ == s && machine_wf(s),
                Err(e) => r == Err::<(), StepError>(e),
            },
    {
        proof {
            if spec_b_addr(self@) < self.memory@.len() {
                lemma_update_words(self.memory@, spec_b_addr(self@), b);
            }
        }
        self.set_b(b)
    }

    fn exec_load(&mut self, y: u16, indexed: bool, op: LoadOp) -> (r: Result<
        Option<Vec<char>>,
        StepError,
    >)
        requires
            machine_wf(old(self)@),
            y <= 0o7777,
        ensures
            outcome_matches(spec_load(old(self)@, y as int, indexed, op), r, final(self)@),
    {
        let v = self.operand(y, indexed)?;
        match op {
            LoadOp::EnterAu => {
                self.au = v;
            },
            LoadOp::EnterAl => {
                self.al = v;
            },
            LoadOp::AddAl => {
                self.al = add_18(self.al, v);
            },
            LoadOp::SubAl => {
                self.al = sub_18(self.al, v);
            },
            LoadOp::SelectiveSubstitute => {
                let mask = self.au;
                let al = self.al;
                let nm = 0o777777 - mask;
                let r = (al & nm) | (v & mask);
                proof {
                    lemma_merge_bits(nm, al, v, mask);
                }
                self.al = r;
            },
            LoadOp::Multiply => {
                let product = mul_18(self.al, v);
                self.set_au_al(product);
            },
            LoadOp::Divide => {
                let a = self.get_au_al();
                let (quotient, remainder) = div(a, v);
                self.al = quotient;
                self.au = remainder;
            },
            LoadOp::EnterB => {
                self.set_b_word(v)?;
            },
        }
        self.advance_p();
        Ok(None)
    }

    fn exec_compare_al(&mut self, y: u16) -> (r: Result<Option<Vec<char>>, StepError>)
        requires
            machine_wf(old(self)@),
            y <= 0o7777,
        ensures
            outcome_matches(spec_compare_al(old(self)@, y as int), r, final(self)@),
    {
        let val = self.operand(y, false)?;
        let al_signed = ones_to_signed_18(self.al);
        let val_signed = ones_to_signed_18(val);
        self.compare = true;
        self.equal = al_signed == val_signed;
        self.greater = al_signed >= val_signed;
        self.advance_p();
        Ok(None)
    }

    fn exec_double(&mut self, y: u16, indexed: bool, add: bool) -> (r: Result<
        Option<Vec<char>>,
        StepError,
    >)
        requires
            machine_wf(old(self)@),
            y <= 0o7777,
        ensures
            outcome_matches(spec_double(old(self)@, y as int, indexed, add), r, final(self)@),
    {
        let a = self.operand_addr(y, indexed)?;
        let d = self.read_36(a)?;
        let result = if add {
            add_36(self.get_au_al(), d)
        } else {
            sub_36(self.get_au_al(), d)
        };
        self.set_au_al(result);
        self.advance_p();
        Ok(None)
    }

    fn exec_store(&mut self, y: u16, indexed: bool, op: StoreOp) -> (r: Result<
        Option<Vec<char>>,
        StepError,
    >)
        requires
            machine_wf(old(self)@),
            y <= 0o7777,
        ensures
            outcome_matches(spec_store(old(self)@, y as int, indexed, op), r, final(self)@),
    {
        let a = self.operand_addr(y, indexed)?;
        let v = match op {
            StoreOp::Clear => 0,
            StoreOp::B => self.get_b()?,
            StoreOp::Al => self.al,
            StoreOp::Au => self.au,
        };
        assert(v <= 0o777777);
        self.write_word(a, v)?;
        self.advance_p();
        Ok(None)
    }

    fn exec_logic(&mut self, y: u16, op: LogicOp) -> (r: Result<Option<Vec<char>>, StepError>)
        requires
            machine_wf(old(self)@),
            y <= 0o7777,
        ensures
            outcome_matches(spec_logic(old(self)@, y as int, op), r, final(self)@),
    {
        let a = self.p_addr(y);
        let v = self.read(a)?;
        let al = self.al;
        assert(v <= 0o777777);
        proof {
            lemma_merge_bits(0, al, v, 0);
        }
        self.al = match op {
            LogicOp::Or => al | v,
            LogicOp::And => al & v,
            LogicOp::Xor => al ^ v,
        };
        self.advance_p();
        Ok(None)
    }
}

/// Rotates an 18-bit word left `k` places.
fn rotate_left_18(x: u32, k: u8) -> (r: u32)
    requires
        x <= 0o777777,
    ensures
        r == rotl_18(x as int, k as nat),
        r <= 0o777777,
{
    let mut a = x;
    let mut i: u8 = 0;
    while i < k
        invariant
            i <= k,
            a <= 0o777777,
            a == rotl_18(x as int, i as nat),
        decreases k - i,
    {
        let pa = a;
        let top_bit = (a >> 17) & 1;
        let na = ((a << 1) & 0o777777) | top_bit;
        proof {
            lemma_rotate_bits(pa, top_bit, na);
        }
        a = na;
        i += 1;
    }
    a
}

/// Rotates a 36-bit word left `k` places.
fn rotate_left_36(x: u64, k: u8) -> (r: u64)
    requires
        x <= 0o777777_777777,
    ensures
        r == rotl_36(x as int, k as nat),
        r <= 0o777777_777777,
{
    let mut a = x;
    let mut i: u8 = 0;
    while i < k
        invariant
            i <= k,
            a <= 0o777777_777777,
            a == rotl_36(x as int, i as nat),
        decreases k - i,
    {
        let pa = a;
        let top_bit = (a >> 35) & 1;
        let na = ((a << 1) & 0o777777_777777) | top_bit;
        proof {
            lemma_rotate_double_bits(pa, top_bit, na);
        }
        a = na;
        i += 1;
    }
    a
}

impl State {
    fn return_to(&mut self, target: u32) -> (r: Result<Option<Vec<char>>, StepError>)
        requires
            machine_wf(old(self)@),
            target <= 0o777777,
        ensures
            outcome_matches(spec_return_to(old(self)@, target as int), r, final(self)@),
    {
        let ret = wrapping_add_18(self.p, 1);
        self.write_word(target, ret)?;
        self.p = wrapping_add_18(target, 1);
        Ok(None)
    }

    fn exec_indirect_return_jump(&mut self, y: u16, indexed: bool) -> (r: Result<
        Option<Vec<char>>,
        StepError,
    >)
        requires
            machine_wf(old(self)@),
            y <= 0o7777,
        ensures
            outcome_matches(
                spec_indirect_return_jump(old(self)@, y as int, indexed),
                r,
                final(self)@,
            ),
    {
        let base = self.p_addr(y);
        let a = self.index(base, indexed)?;
        let target = self.read(a)?;
        assert(target <= 0o777777);
        self.return_to(target)
    }

    fn exec_jump(&mut self, y: u16, indexed: bool) -> (r: Result<Option<Vec<char>>, StepError>)
        requires
            machine_wf(old(self)@),
            y <= 0o7777,
        ensures
            outcome_matches(spec_jump(old(self)@, y as int, indexed), r, final(self)@),
    {
        let base = self.p_addr(y);
        let a = self.index(base, indexed)?;
        self.p = a;
        Ok(None)
    }

    fn exec_conditional_jump(&mut self, y: u16, taken: bool) -> (r: Result<
        Option<Vec<char>>,
        StepError,
    >)
        requires
            machine_wf(old(self)@),
            y <= 0o7777,
        ensures
            outcome_matches(spec_conditional_jump(old(self)@, y as int, taken), r, final(self)@),
    {
        if taken {
            self.p = self.p_addr(y);
        } else {
            self.advance_p();
        }
        Ok(None)
    }

    fn exec_indirect_jump(&mut self, y: u16) -> (r: Result<Option<Vec<char>>, StepError>)
        requires
            machine_wf(old(self)@),
            y <= 0o7777,
        ensures
            outcome_matches(spec_indirect_jump(old(self)@, y as int), r, final(self)@),
    {
        let a = self.p_addr(y);
        let v = self.read(a)?;
        assert(v <= 0o777777);
        self.p = v;
        Ok(None)
    }

    fn exec_b_skip(&mut self, y: u16) -> (r: Result<Option<Vec<char>>, StepError>)
        requires
            machine_wf(old(self)@),
            y <= 0o7777,
        ensures
            outcome_matches(spec_b_skip(old(self)@, y as int), r, final(self)@),
    {
        let addr = self.p_addr(y);
        let target = self.read(addr)?;
        let b = self.get_b()?;
        assert(b <= 0o777777);
        if b == target {
            self.advance_p();
        } else {
            let nb = add_18(b, 1);
            self.set_b_word(nb)?;
        }
        self.advance_p();
        Ok(None)
    }

    fn exec_index_skip(&mut self, y: u16) -> (r: Result<Option<Vec<char>>, StepError>)
        requires
            machine_wf(old(self)@),
            y <= 0o7777,
        ensures
            outcome_matches(spec_index_skip(old(self)@, y as int), r, final(self)@),
    {
        let addr = self.p_addr(y);
        let idx = self.read(addr)?;
        assert(idx <= 0o777777);
        if idx == 0 {
            self.advance_p();
        } else {
            self.write_word(addr, idx - 1)?;
        }
        self.advance_p();
        Ok(None)
    }

    fn exec_b_jump(&mut self, y: u16) -> (r: Result<Option<Vec<char>>, StepError>)
        requires
            machine_wf(old(self)@),
            y <= 0o7777,
        ensures
            outcome_matches(spec_b_jump(old(self)@, y as int), r, final(self)@),
    {
        let b = self.get_b()?;
        assert(b <= 0o777777);
        if b != 0 {
            let target = self.p_addr(y);
            self.set_b_word(b - 1)?;
            self.p = target;
            Ok(None)
        } else {
            self.advance_p();
            Ok(None)
        }
    }

    fn store_field(&mut self, y: u16, keep: u32, value: u32) -> (r: Result<(), StepError>)
        requires
            machine_wf(old(self)@),
            y <= 0o7777,
            value <= 0o777777,
        ensures
            match spec_store_field(old(self)@, y as int, keep, value) {
                Ok(s) => r is Ok && final(self)@ == s && machine_wf(s),
                Err(e) => r == Err::<(), StepError>(e),
            },
    {
        let addr = self.p_addr(y);
        let w = self.read(addr)?;
        let nw = (w & keep) | value;
        assert(w <= 0o777777);
        proof {
            lemma_merge_bits(keep, w, value, 0);
        }
        self.write_word(addr, nw)
    }

    fn fetch_control_words(&mut self) -> (r: Result<(), StepError>)
        requires
            machine_wf(old(self)@),
        ensures
            match spec_fetch_control_words(old(self)@) {
                Ok(s) => r is Ok && final(self)@ == s && machine_wf(s),
                Err(e) => r == Err::<(), StepError>(e),
            },
    {
        let t = self.read(wrapping_add_18(self.p, 1))?;
        let i = self.read(wrapping_add_18(self.p, 2))?;
        self.io.tacw = t;
        self.io.iacw = i;
        Ok(())
    }

    fn exec_input(&mut self, k: u8) -> (r: Result<Option<Vec<char>>, StepError>)
        requires
            machine_wf(old(self)@),
        ensures
            outcome_matches(spec_input(old(self)@), r, final(self)@),
    {
        self.fetch_control_words()?;
        match self.io.state {
            Mode::TapeInput => {
                if self.io.tape.len() == 0 {
                    return Err(StepError::TapeEmpty);
                }
                if self.io.iacw as usize >= self.memory.len() {
                    return Err(StepError::AddressOutOfRange { address: self.io.iacw });
                }
                assert(self.io.tape@[0] < 64);
                proof {
                    lemma_update_words(self.memory@, self.io.iacw as int, self.io.tape@[0] as u32);
                }
                self.io.read(&mut self.memory, k);
            },
            _ => {},
        }
        self.p = wrapping_add_18(self.p, 2);
        self.advance_p();
        Ok(None)
    }

    fn exec_output(&mut self, k: u8) -> (r: Result<Option<Vec<char>>, StepError>)
        requires
            machine_wf(old(self)@),
        ensures
            outcome_matches(spec_output(old(self)@), r, final(self)@),
    {
        self.fetch_control_words()?;
        if !(self.io.iacw <= self.io.tacw + 1 && (self.io.tacw as usize) < self.memory.len()) {
            return Err(StepError::OutputRange { iacw: self.io.iacw, tacw: self.io.tacw });
        }
        let text = self.io.write(&self.memory, k);
        self.p = wrapping_add_18(self.p, 2);
        self.advance_p();
        Ok(Some(text))
    }

    fn exec_external_function(&mut self, k: u8) -> (r: Result<Option<Vec<char>>, StepError>)
        requires
            machine_wf(old(self)@),
        ensures
            outcome_matches(spec_external_function(old(self)@), r, final(self)@),
    {
        self.fetch_control_words()?;
        if self.io.iacw as usize >= self.memory.len() {
            return Err(StepError::AddressOutOfRange { address: self.io.iacw });
        }
        match self.io.external_function(&self.memory, k) {
            Ok(()) => {},
            Err(e) => {
                return Err(StepError::UnknownExternalFunction { code: e.code });
            },
        }
        self.p = wrapping_add_18(self.p, 2);
        self.advance_p();
        Ok(None)
    }

    fn exec_skip_input(&mut self) -> (r: Result<Option<Vec<char>>, StepError>)
        requires
            machine_wf(old(self)@),
        ensures
            outcome_matches(spec_skip_input(old(self)@), r, final(self)@),
    {
        match self.io.state {
            Mode::TermInput => {
                if self.io.iacw != self.io.tacw {
                    self.advance_p();
                }
            },
            _ => {
                self.advance_p();
            },
        }
        self.advance_p();
        Ok(None)
    }
}

spec fn in_group_a(i: Instruction) -> bool {
    match i {
        Instruction::CMAL { .. } | Instruction::SLSU { .. } | Instruction::SLSUB { .. } | Instruction::ENTAU { .. } | Instruction::ENTAUB { .. } | Instruction::ENTAL { .. } | Instruction::ENTALB { .. } | Instruction::ADDAL { .. } | Instruction::ADDALB { .. } | Instruction::SUBAL { .. } | Instruction::SUBALB { .. } | Instruction::ADDA { .. } | Instruction::ADDAB { .. } | Instruction::SUBA { .. } | Instruction::SUBAB { .. } | Instruction::MULAL { .. } | Instruction::MULALB { .. } | Instruction::DIVA { .. } | Instruction::DIVAB { .. } | Instruction::ENTB { .. } | Instruction::ENTBB { .. } | Instruction::CL { .. } | Instruction::CLB { .. } | Instruction::STRB { .. } | Instruction::STRBB { .. } | Instruction::STRAL { .. } | Instruction::STRALB { .. } | Instruction::STRAU { .. } | Instruction::STRAUB { .. } | Instruction::SLSET { .. } | Instruction::SLCL { .. } | Instruction::SLCP { .. } => true,
        _ => false,
    }
}

spec fn in_group_b(i: Instruction) -> bool {
    match i {
        Instruction::IRJP { .. } | Instruction::IRJPB { .. } | Instruction::JP { .. } | Instruction::JPB { .. } | Instruction::ENTBK { .. } | Instruction::ENTBKB { .. } | Instruction::IJP { .. } | Instruction::BSK { .. } | Instruction::ISK { .. } | Instruction::JPAUZ { .. } | Instruction::JPALZ { .. } | Instruction::JPAUNZ { .. } | Instruction::JPALNZ { .. } | Instruction::JPAUP { .. } | Instruction::JPALP { .. } | Instruction::JPAUNG { .. } | Instruction::JPALNG { .. } | Instruction::ENTALK { .. } | Instruction::ADDALK { .. } | Instruction::STRICR { .. } | Instruction::BJP { .. } | Instruction::STRADR { .. } | Instruction::STRSR { .. } | Instruction::RJP { .. } => true,
        _ => false,
    }
}

spec fn in_group_c(i: Instruction) -> bool {
    match i {
        Instruction::IN { .. } | Instruction::OUT { .. } | Instruction::EXF { .. } | Instruction::RTC | Instruction::SKPIIN { .. } | Instruction::SKPOIN { .. } | Instruction::SKPFIN { .. } | Instruction::RSHA { .. } | Instruction::RSHAU { .. } | Instruction::RSHAL { .. } | Instruction::LSHAU { .. } | Instruction::LSHAL { .. } | Instruction::LSHA { .. } | Instruction::RND | Instruction::CPAL | Instruction::CPAU | Instruction::CPA | Instruction::ENTICR { .. } | Instruction::ENTSR { .. } | Instruction::STOP { .. } | Instruction::CMALB { .. } | Instruction::CMSK { .. } | Instruction::CMSKB { .. } | Instruction::SIL => true,
        _ => false,
    }
}

impl State {
    #[verifier::rlimit(50)]
    fn execute_a(&mut self, instruction: Instruction, compare: bool, equal: bool, greater: bool) -> (r:
        Result<Option<Vec<char>>, StepError>)
        requires
            machine_wf(old(self)@),
            instruction_wf(instruction),
            in_group_a(instruction),
        ensures
            outcome_matches(
                spec_execute(old(self)@, instruction, compare, equal, greater),
                r,
                final(self)@,
            ),
    {
        match instruction {
            Instruction::CMAL { y } => self.exec_compare_al(y),
            Instruction::SLSU { y } => self.exec_load(y, false, LoadOp::SelectiveSubstitute),
            Instruction::SLSUB { y } => self.exec_load(y, true, LoadOp::SelectiveSubstitute),
            Instruction::ENTAU { y } => self.exec_load(y, false, LoadOp::EnterAu),
            Instruction::ENTAUB { y } => self.exec_load(y, true, LoadOp::EnterAu),
            Instruction::ENTAL { y } => self.exec_load(y, false, LoadOp::EnterAl),
            Instruction::ENTALB { y } => self.exec_load(y, true, LoadOp::EnterAl),
            Instruction::ADDAL { y } => self.exec_load(y, false, LoadOp::AddAl),
            Instruction::ADDALB { y } => self.exec_load(y, true, LoadOp::AddAl),
            Instruction::SUBAL { y } => self.exec_load(y, false, LoadOp::SubAl),
            Instruction::SUBALB { y } => self.exec_load(y, true, LoadOp::SubAl),
            Instruction::ADDA { y } => self.exec_double(y, false, true),
            Instruction::ADDAB { y } => self.exec_double(y, true, true),
            Instruction::SUBA { y } => self.exec_double(y, false, false),
            Instruction::SUBAB { y } => self.exec_double(y, true, false),
            Instruction::MULAL { y } => self.exec_load(y, false, LoadOp::Multiply),
            Instruction::MULALB { y } => self.exec_load(y, true, LoadOp::Multiply),
            Instruction::DIVA { y } => self.exec_load(y, false, LoadOp::Divide),
            Instruction::DIVAB { y } => self.exec_load(y, true, LoadOp::Divide),
            Instruction::ENTB { y } => self.exec_load(y, false, LoadOp::EnterB),
            Instruction::ENTBB { y } => self.exec_load(y, true, LoadOp::EnterB),
            Instruction::CL { y } => self.exec_store(y, false, StoreOp::Clear),
            Instruction::CLB { y } => self.exec_store(y, true, StoreOp::Clear),
            Instruction::STRB { y } => self.exec_store(y, false, StoreOp::B),
            Instruction::STRBB { y } => self.exec_store(y, true, StoreOp::B),
            Instruction::STRAL { y } => self.exec_store(y, false, StoreOp::Al),
            Instruction::STRALB { y } => self.exec_store(y, true, StoreOp::Al),
            Instruction::STRAU { y } => self.exec_store(y, false, StoreOp::Au),
            Instruction::STRAUB { y } => self.exec_store(y, true, StoreOp::Au),
            Instruction::SLSET { y } => self.exec_logic(y, LogicOp::Or),
            Instruction::SLCL { y } => self.exec_logic(y, LogicOp::And),
            Instruction::SLCP { y } => self.exec_logic(y, LogicOp::Xor),
            _ => {
                proof {
                    assert(false);
                }
                Ok(None)
            },
        }
    }

    #[verifier::rlimit(50)]
    fn execute_b(&mut self, instruction: Instruction, compare: bool, equal: bool, greater: bool) -> (r:
        Result<Option<Vec<char>>, StepError>)
        requires
            machine_wf(old(self)@),
            instruction_wf(instruction),
            in_group_b(instruction),
        ensures
            outcome_matches(
                spec_execute(old(self)@, instruction, compare, equal, greater),
                r,
                final(self)@,
            ),
    {
        match instruction {
            Instruction::IRJP { y } => self.exec_indirect_return_jump(y, false),
            Instruction::IRJPB { y } => self.exec_indirect_return_jump(y, true),
            Instruction::JP { y } => self.exec_jump(y, false),
            Instruction::JPB { y } => self.exec_jump(y, true),
            Instruction::ENTBK { u } => {
                let b = sign_extend_12_to_18(u);
                self.set_b_word(b)?;
                self.advance_p();
                Ok(None)
            },
            Instruction::ENTBKB { u } => {
                let b = self.get_b()?;
                assert(b <= 0o777777);
                let nb = add_18(b, sign_extend_12_to_18(u));
                self.set_b_word(nb)?;
                self.advance_p();
                Ok(None)
            },
            Instruction::IJP { y } => self.exec_indirect_jump(y),
            Instruction::BSK { y } => self.exec_b_skip(y),
            Instruction::ISK { y } => self.exec_index_skip(y),
            Instruction::JPAUZ { y } => {
                let taken = if compare { equal } else { self.au == 0 };
                self.exec_conditional_jump(y, taken)
            },
            Instruction::JPALZ { y } => {
                let taken = if compare { equal } else { self.al == 0 };
                self.exec_conditional_jump(y, taken)
            },
            Instruction::JPAUNZ { y } => {
                let taken = if compare { !equal } else { self.au != 0 };
                self.exec_conditional_jump(y, taken)
            },
            Instruction::JPALNZ { y } => {
                let taken = if compare { !equal } else { self.al != 0 };
                self.exec_conditional_jump(y, taken)
            },
            Instruction::JPAUP { y } => {
                let au = self.au;
                proof {
                    lemma_word_bits(au);
                }
                let taken = if compare { greater } else { self.au & 0o400000 == 0 };
                self.exec_conditional_jump(y, taken)
            },
            Instruction::JPALP { y } => {
                let al = self.al;
                proof {
                    lemma_word_bits(al);
                }
                let taken = if compare { greater } else { self.al & 0o400000 == 0 };
                self.exec_conditional_jump(y, taken)
            },
            Instruction::JPAUNG { y } => {
                let au = self.au;
                proof {
                    lemma_word_bits(au);
                }
                let taken = if compare { !greater } else { self.au & 0o400000 != 0 };
                self.exec_conditional_jump(y, taken)
            },
            Instruction::JPALNG { y } => {
                let al = self.al;
                proof {
                    lemma_word_bits(al);
                }
                let taken = if compare { !greater } else { self.al & 0o400000 != 0 };
                self.exec_conditional_jump(y, taken)
            },
            Instruction::ENTALK { u } => {
                self.al = sign_extend_12_to_18(u);
                self.advance_p();
                Ok(None)
            },
            Instruction::ADDALK { u } => {
                let operand = sign_extend_12_to_18(u);
                self.al = add_18(self.al, operand);
                self.advance_p();
                Ok(None)
            },
            Instruction::STRICR { y } => {
                self.store_field(y, 0o777700, self.icr as u32)?;
                self.advance_p();
                Ok(None)
            },
            Instruction::BJP { y } => self.exec_b_jump(y),
            Instruction::STRADR { y } => {
                let al = self.al;
                proof {
                    lemma_word_bits(al);
                }
                self.store_field(y, 0o770000, self.al & 0o7777)?;
                self.advance_p();
                Ok(None)
            },
            Instruction::STRSR { y } => {
                self.store_field(y, 0o777700, self.sr as u32)?;
                let sr = self.sr;
                proof {
                    lemma_register_bits(sr, 0, 0);
                }
                self.sr = self.sr & 0b10111;
                self.advance_p();
                Ok(None)
            },
            Instruction::RJP { y } => {
                let target = self.p_addr(y);
                self.return_to(target)
            },
            _ => {
                proof {
                    assert(false);
                }
                Ok(None)
            },
        }
    }

    #[verifier::rlimit(50)]
    fn execute_c(&mut self, instruction: Instruction, compare: bool, equal: bool, greater: bool) -> (r:
        Result<Option<Vec<char>>, StepError>)
        requires
            machine_wf(old(self)@),
            instruction_wf(instruction),
            in_group_c(instruction),
        ensures
            outcome_matches(
                spec_execute(old(self)@, instruction, compare, equal, greater),
                r,
                final(self)@,
            ),
    {
        match instruction {
            Instruction::IN { k } => self.exec_input(k),
            Instruction::OUT { k } => self.exec_output(k),
            Instruction::EXF { k } => self.exec_external_function(k),
            Instruction::RTC => {
                self.rtc_enabled = true;
                self.advance_p();
                Ok(None)
            },
            Instruction::SKPIIN { k: _ } => self.exec_skip_input(),
            Instruction::SKPOIN { k: _ } | Instruction::SKPFIN { k: _ } => {
                self.advance_p();
                self.advance_p();
                Ok(None)
            },
            Instruction::RSHA { k } => {
                let a = self.get_au_al();
                if a > 0o377777_777777 && k > 36 {
                    return Err(StepError::ShiftOutOfRange { count: k });
                }
                let result = rshift_36(a, k);
                self.set_au_al(result);
                self.advance_p();
                Ok(None)
            },
            Instruction::RSHAU { k } => {
                if k >= 32 || (self.au > 0o377777 && k > 18) {
                    return Err(StepError::ShiftOutOfRange { count: k });
                }
                self.au = rshift_18(self.au, k);
                self.advance_p();
                Ok(None)
            },
            Instruction::RSHAL { k } => {
                if k >= 32 || (self.al > 0o377777 && k > 18) {
                    return Err(StepError::ShiftOutOfRange { count: k });
                }
                self.al = rshift_18(self.al, k);
                self.advance_p();
                Ok(None)
            },
            Instruction::LSHAU { k } => {
                self.au = rotate_left_18(self.au, k);
                self.advance_p();
                Ok(None)
            },
            Instruction::LSHAL { k } => {
                self.al = rotate_left_18(self.al, k);
                self.advance_p();
                Ok(None)
            },
            Instruction::LSHA { k } => {
                let a = rotate_left_36(self.get_au_al(), k);
                self.set_au_al(a);
                self.advance_p();
                Ok(None)
            },
            Instruction::RND => {
                let al = self.al;
                let msb = (self.al >> 17) & 1;
                proof {
                    lemma_word_bits(al);
                }
                if self.au <= 0o377777 {
                    self.al = add_18(self.au, msb);
                } else {
                    self.al = sub_18(self.au, 1 - msb);
                }
                self.advance_p();
                Ok(None)
            },
            Instruction::CPAL => {
                if self.al != 0 {
                    self.al = complement_18(self.al);
                }
                self.advance_p();
                Ok(None)
            },
            Instruction::CPAU => {
                if self.au != 0 {
                    self.au = complement_18(self.au);
                }
                self.advance_p();
                Ok(None)
            },
            Instruction::CPA => {
                if !(self.au == 0 && self.al == 0) {
                    self.au = complement_18(self.au);
                    self.al = complement_18(self.al);
                }
                self.advance_p();
                Ok(None)
            },
            Instruction::ENTICR { k } => {
                if k >= 8 {
                    return Err(StepError::RegisterOverflow { value: k });
                }
                self.icr = k;
                self.advance_p();
                Ok(None)
            },
            Instruction::ENTSR { k } => {
                if k >= 32 {
                    return Err(StepError::RegisterOverflow { value: k });
                }
                self.sr = k;
                self.advance_p();
                Ok(None)
            },
            Instruction::STOP { k } => {
                let st = self.stop;
                proof {
                    lemma_register_bits(self.sr, k, st);
                }
                if (k & self.stop) != 0 || k >= 0b100000 {
                    self.stopped = k & self.stop;
                    self.running = false;
                }
                self.advance_p();
                Ok(None)
            },
            Instruction::CMALB { .. } | Instruction::CMSK { .. } | Instruction::CMSKB { .. }
            | Instruction::SIL => {
                self.advance_p();
                Ok(None)
            },

            _ => {
                proof {
                    assert(false);
                }
                Ok(None)
            },
        }
    }

    /// Carries out one decoded instruction on a machine whose comparison
    /// flags are cleared; `compare`, `equal` and `greater` are the flags the
    /// previous instruction left.
    fn execute(&mut self, instruction: Instruction, compare: bool, equal: bool, greater: bool) -> (r:
        Result<Option<Vec<char>>, StepError>)
        requires
            machine_wf(old(self)@),
            instruction_wf(instruction),
        ensures
            outcome_matches(
                spec_execute(old(self)@, instruction, compare, equal, greater),
                r,
                final(self)@,
            ),
    {
        match instruction {
            Instruction::CMAL { .. } | Instruction::SLSU { .. } | Instruction::SLSUB { .. } | Instruction::ENTAU { .. } | Instruction::ENTAUB { .. } | Instruction::ENTAL { .. } | Instruction::ENTALB { .. } | Instruction::ADDAL { .. } | Instruction::ADDALB { .. } | Instruction::SUBAL { .. } | Instruction::SUBALB { .. } | Instruction::ADDA { .. } | Instruction::ADDAB { .. } | Instruction::SUBA { .. } | Instruction::SUBAB { .. } | Instruction::MULAL { .. } | Instruction::MULALB { .. } | Instruction::DIVA { .. } | Instruction::DIVAB { .. } | Instruction::ENTB { .. } | Instruction::ENTBB { .. } | Instruction::CL { .. } | Instruction::CLB { .. } | Instruction::STRB { .. } | Instruction::STRBB { .. } | Instruction::STRAL { .. } | Instruction::STRALB { .. } | Instruction::STRAU { .. } | Instruction::STRAUB { .. } | Instruction::SLSET { .. } | Instruction::SLCL { .. } | Instruction::SLCP { .. } => self.execute_a(instruction, compare, equal, greater),
            Instruction::IRJP { .. } | Instruction::IRJPB { .. } | Instruction::JP { .. } | Instruction::JPB { .. } | Instruction::ENTBK { .. } | Instruction::ENTBKB { .. } | Instruction::IJP { .. } | Instruction::BSK { .. } | Instruction::ISK { .. } | Instruction::JPAUZ { .. } | Instruction::JPALZ { .. } | Instruction::JPAUNZ { .. } | Instruction::JPALNZ { .. } | Instruction::JPAUP { .. } | Instruction::JPALP { .. } | Instruction::JPAUNG { .. } | Instruction::JPALNG { .. } | Instruction::ENTALK { .. } | Instruction::ADDALK { .. } | Instruction::STRICR { .. } | Instruction::BJP { .. } | Instruction::STRADR { .. } | Instruction::STRSR { .. } | Instruction::RJP { .. } => self.execute_b(instruction, compare, equal, greater),
            Instruction::IN { .. } | Instruction::OUT { .. } | Instruction::EXF { .. } | Instruction::RTC | Instruction::SKPIIN { .. } | Instruction::SKPOIN { .. } | Instruction::SKPFIN { .. } | Instruction::RSHA { .. } | Instruction::RSHAU { .. } | Instruction::RSHAL { .. } | Instruction::LSHAU { .. } | Instruction::LSHAL { .. } | Instruction::LSHA { .. } | Instruction::RND | Instruction::CPAL | Instruction::CPAU | Instruction::CPA | Instruction::ENTICR { .. } | Instruction::ENTSR { .. } | Instruction::STOP { .. } | Instruction::CMALB { .. } | Instruction::CMSK { .. } | Instruction::CMSKB { .. } | Instruction::SIL => self.execute_c(instruction, compare, equal, greater),
        }
    }
}

impl State {
    fn tick(&mut self, instruction_time: u64) -> (r: Result<(), StepError>)
        requires
            machine_wf(old(self)@),
        ensures
            match spec_tick(old(self)@, instruction_time as int) {
                Ok(s) => r is Ok && final(self)@ == s && machine_wf(s),
                Err(e) => r == Err::<(), StepError>(e),
            },
    {
        if self.time_microseconds > u64::MAX - instruction_time {
            return Err(StepError::ClockOverflow);
        }
        self.stopped = 0;
        self.time_microseconds = self.time_microseconds + instruction_time;
        if self.rtc_enabled {
            if self.real_time_clock > u64::MAX - instruction_time {
                return Err(StepError::ClockOverflow);
            }
            let rtc = self.real_time_clock + instruction_time;
            if rtc > u64::MAX / 1024 {
                return Err(StepError::ClockOverflow);
            }
            let x = (rtc * 1024) / 1_000_000;
            let ticks = x as u32;
            proof {
                lemma_truncate_bits(x, ticks);
            }
            if ticks > 0o777777 {
                return Err(StepError::ClockOverflow);
            }
            if RTC_ADDRESS >= self.memory.len() {
                return Err(StepError::AddressOutOfRange { address: RTC_ADDRESS as u32 });
            }
            self.real_time_clock = rtc;
            proof {
                lemma_update_words(self.memory@, RTC_ADDRESS as int, ticks);
            }
            self.memory.set(RTC_ADDRESS, ticks);
        }
        Ok(())
    }

    /// Executes one decoded instruction: advances the elapsed time (and the
    /// real-time clock when enabled) by `instruction_time` microseconds,
    /// clears the comparison flags after handing them to the instruction,
    /// and carries the instruction out. Returns the text the instruction
    /// sent to the terminal, if any, or why the instruction cannot be
    /// carried out.
    pub fn step(&mut self, instruction: Instruction, instruction_time: u64) -> (r: Result<
        Option<Vec<char>>,
        StepError,
    >)
        requires
            machine_wf(old(self)@),
            instruction_wf(instruction),
        ensures
            outcome_matches(spec_step(old(self)@, instruction, instruction_time as int), r, final(self)@),
    {
        let compare = self.compare;
        let equal = self.equal;
        let greater = self.greater;
        self.tick(instruction_time)?;
        self.compare = false;
        self.equal = false;
        self.greater = false;
        self.execute(instruction, compare, equal, greater)
    }
}

/// Selective complement inverts exactly the bits of AL that are set in the
/// word at `y` in P's bank: bit `k` of the new AL is set when exactly one
/// of AL and the word has it; the rest of the machine is unchanged and the
/// program continues with the next word; so complementing again with the
/// same word gives AL back.
pub proof fn law_selective_complement(
    s: MachineView,
    y: u16,
    compare: bool,
    equal: bool,
    greater: bool,
)
    requires
        machine_wf(s),
        0 <= spec_p_addr(s, y as int) < s.memory.len(),
    ensures
        ({
            let w = s.memory[spec_p_addr(s, y as int)];
            spec_execute(s, Instruction::SLCP { y }, compare, equal, greater) matches Ok(v) && {
                &&& v.0 == advance(MachineView { al: v.0.al, ..s })
                &&& v.1 is None
                &&& forall|k: u32|
                    k < 18 ==> (#[trigger] ((v.0.al >> k) & 1u32) == 1u32) == (((s.al >> k) & 1u32)
                        == 1u32) != (((w >> k) & 1u32) == 1u32)
                &&& spec_execute(
                    MachineView { al: v.0.al, ..s },
                    Instruction::SLCP { y },
                    compare,
                    equal,
                    greater,
                ) matches Ok(v2) && v2.0.al == s.al
            }
        }),
{
    let w = s.memory[spec_p_addr(s, y as int)];
    let a = s.al;
    let x = a ^ w;
    assert(forall|k: u32|
        k < 18 ==> (#[trigger] ((x >> k) & 1u32) == 1u32) == (((a >> k) & 1u32) == 1u32) != (((w
            >> k) & 1u32) == 1u32)) by (bit_vector)
        requires
            x == a ^ w,
    ;
    assert((x ^ w) == a) by (bit_vector)
        requires
            x == a ^ w,
    ;
}

/// Selective set and selective clear act bit by bit on AL with the word at
/// `y` in P's bank: after a selective set, bit `k` of AL is set when AL or
/// the word had it; after a selective clear, when both had it; the rest of
/// the machine is unchanged and the program continues with the next word.
pub proof fn law_selective_set_and_clear(
    s: MachineView,
    y: u16,
    compare: bool,
    equal: bool,
    greater: bool,
)
    requires
        machine_wf(s),
        0 <= spec_p_addr(s, y as int) < s.memory.len(),
    ensures
        ({
            let w = s.memory[spec_p_addr(s, y as int)];
            spec_execute(s, Instruction::SLSET { y }, compare, equal, greater) matches Ok(v) && {
                &&& v.0 == advance(MachineView { al: v.0.al, ..s })
                &&& forall|k: u32|
                    k < 18 ==> (#[trigger] ((v.0.al >> k) & 1u32) == 1u32) == (((s.al >> k) & 1u32)
                        == 1u32 || ((w >> k) & 1u32) == 1u32)
            }
        }),
        ({
            let w = s.memory[spec_p_addr(s, y as int)];
            spec_execute(s, Instruction::SLCL { y }, compare, equal, greater) matches Ok(v) && {
                &&& v.0 == advance(MachineView { al: v.0.al, ..s })
                &&& forall|k: u32|
                    k < 18 ==> (#[trigger] ((v.0.al >> k) & 1u32) == 1u32) == (((s.al >> k) & 1u32)
                        == 1u32 && ((w >> k) & 1u32) == 1u32)
            }
        }),
{
    let w = s.memory[spec_p_addr(s, y as int)];
    let a = s.al;
    let o = a | w;
    let n = a & w;
    assert(forall|k: u32|
        k < 18 ==> (#[trigger] ((o >> k) & 1u32) == 1u32) == (((a >> k) & 1u32) == 1u32 || ((w
            >> k) & 1u32) == 1u32)) by (bit_vector)
        requires
            o == a | w,
    ;
    assert(forall|k: u32|
        k < 18 ==> (#[trigger] ((n >> k) & 1u32) == 1u32) == (((a >> k) & 1u32) == 1u32 && ((w
            >> k) & 1u32) == 1u32)) by (bit_vector)
        requires
            n == a & w,
    ;
}

/// Complementing a register leaves positive zero (all bits clear) as it
/// is, and otherwise negates the register's one's complement value; the
/// program continues with the next word.
pub proof fn law_complement_keeps_positive_zero(
    s: MachineView,
    compare: bool,
    equal: bool,
    greater: bool,
)
    requires
        machine_wf(s),
    ensures
        s.al == 0 ==> spec_execute(s, Instruction::CPAL, compare, equal, greater) == continue_with(
            s,
        ),
        s.au == 0 ==> spec_execute(s, Instruction::CPAU, compare, equal, greater) == continue_with(
            s,
        ),
        s.au == 0 && s.al == 0 ==> spec_execute(s, Instruction::CPA, compare, equal, greater)
            == continue_with(s),
        s.al != 0 ==> (spec_execute(s, Instruction::CPAL, compare, equal, greater) matches Ok(v)
            && ones_value_18(v.0.al as int) == -ones_value_18(s.al as int)),
        s.au != 0 ==> (spec_execute(s, Instruction::CPAU, compare, equal, greater) matches Ok(v)
            && ones_value_18(v.0.au as int) == -ones_value_18(s.au as int)),
{
}

/// The registers as the processor's trace shows them: P, AU and AL in six
/// octal digits, the index control register in one, and the special
/// register in five binary digits.
pub open spec fn spec_describe(s: MachineView) -> Seq<char> {
    "P: "@ + spec_octal_padded(s.p as nat, 6) + " AU: "@ + spec_octal_padded(s.au as nat, 6)
        + " AL: "@ + spec_octal_padded(s.al as nat, 6) + " ICR: "@ + spec_octal_padded(
        s.icr as nat,
        1,
    ) + " SR: "@ + spec_padded(s.sr as nat, 2, 5)
}

impl State {
    /// The registers as a line of text (see `spec_describe`).
    pub fn describe(&self) -> (r: String)
        ensures
            r@ == spec_describe(self@),
    {
        let mut out = String::from_str("P: ");
        let p = format_octal(self.p as u64, 6);
        out.append(p.as_str());
        out.append(" AU: ");
        let au = format_octal(self.au as u64, 6);
        out.append(au.as_str());
        out.append(" AL: ");
        let al = format_octal(self.al as u64, 6);
        out.append(al.as_str());
        out.append(" ICR: ");
        let icr = format_octal(self.icr as u64, 1);
        out.append(icr.as_str());
        out.append(" SR: ");
        let sr = format_binary(self.sr as u64, 5);
        out.append(sr.as_str());
        out
    }
}

/// Executing an instruction leaves the elapsed time and the real-time
/// clock as they are, and only a comparison sets the comparison flags.
#[verifier::rlimit(100)]
proof fn lemma_execute_frame(s: MachineView, i: Instruction, compare: bool, equal: bool, greater: bool)
    requires
        !s.compare && !s.equal && !s.greater,
    ensures
        spec_execute(s, i, compare, equal, greater) matches Ok(v) ==> {
            &&& v.0.time_microseconds == s.time_microseconds
            &&& v.0.real_time_clock == s.real_time_clock
            &&& (i !is CMAL ==> !v.0.compare && !v.0.equal && !v.0.greater)
        },
{
    match i {
        Instruction::CMAL { .. } => {},
        Instruction::CMALB { .. } => {},
        Instruction::CMSK { .. } => {},
        Instruction::CMSKB { .. } => {},
        Instruction::SLSU { .. } => {},
        Instruction::SLSUB { .. } => {},
        Instruction::ENTAU { .. } => {},
        Instruction::ENTAUB { .. } => {},
        Instruction::ENTAL { .. } => {},
        Instruction::ENTALB { .. } => {},
        Instruction::ADDAL { .. } => {},
        Instruction::ADDALB { .. } => {},
        Instruction::SUBAL { .. } => {},
        Instruction::SUBALB { .. } => {},
        Instruction::ADDA { .. } => {},
        Instruction::ADDAB { .. } => {},
        Instruction::SUBA { .. } => {},
        Instruction::SUBAB { .. } => {},
        Instruction::MULAL { .. } => {},
        Instruction::MULALB { .. } => {},
        Instruction::DIVA { .. } => {},
        Instruction::DIVAB { .. } => {},
        Instruction::IRJP { .. } => {},
        Instruction::IRJPB { .. } => {},
        Instruction::ENTB { .. } => {},
        Instruction::ENTBB { .. } => {},
        Instruction::JP { .. } => {},
        Instruction::JPB { .. } => {},
        Instruction::ENTBK { .. } => {},
        Instruction::ENTBKB { .. } => {},
        Instruction::CL { .. } => {},
        Instruction::CLB { .. } => {},
        Instruction::STRB { .. } => {},
        Instruction::STRBB { .. } => {},
        Instruction::STRAL { .. } => {},
        Instruction::STRALB { .. } => {},
        Instruction::STRAU { .. } => {},
        Instruction::STRAUB { .. } => {},
        Instruction::SLSET { .. } => {},
        Instruction::SLCL { .. } => {},
        Instruction::SLCP { .. } => {},
        Instruction::IJP { .. } => {},
        Instruction::BSK { .. } => {},
        Instruction::ISK { .. } => {},
        Instruction::JPAUZ { .. } => {},
        Instruction::JPALZ { .. } => {},
        Instruction::JPAUNZ { .. } => {},
        Instruction::JPALNZ { .. } => {},
        Instruction::JPAUP { .. } => {},
        Instruction::JPALP { .. } => {},
        Instruction::JPAUNG { .. } => {},
        Instruction::JPALNG { .. } => {},
        Instruction::ENTALK { .. } => {},
        Instruction::ADDALK { .. } => {},
        Instruction::STRICR { .. } => {},
        Instruction::BJP { .. } => {},
        Instruction::STRADR { .. } => {},
        Instruction::STRSR { .. } => {},
        Instruction::RJP { .. } => {},
        Instruction::IN { .. } => {},
        Instruction::OUT { .. } => {},
        Instruction::EXF { .. } => {},
        Instruction::RTC => {},
        Instruction::SKPIIN { .. } => {},
        Instruction::SKPOIN { .. } => {},
        Instruction::SKPFIN { .. } => {},
        Instruction::RSHA { .. } => {},
        Instruction::RSHAU { .. } => {},
        Instruction::RSHAL { .. } => {},
        Instruction::LSHAU { .. } => {},
        Instruction::LSHAL { .. } => {},
        Instruction::LSHA { .. } => {},
        Instruction::RND => {},
        Instruction::CPAL => {},
        Instruction::CPAU => {},
        Instruction::CPA => {},
        Instruction::ENTICR { .. } => {},
        Instruction::ENTSR { .. } => {},
        Instruction::STOP { .. } => {},
        Instruction::SIL => {},
    }
}

/// The comparison flags live for one instruction: every instruction other
/// than a comparison leaves them clear, and a conditional jump reads the
/// flags that the instruction before it left (here the jump on AL zero: it
/// follows the comparison's equality when a comparison came just before,
/// and AL's value otherwise).
pub proof fn law_comparison_flags_last_one_step(s: MachineView, i: Instruction, time: int, y: u16)
    requires
        machine_wf(s),
        y <= 0o7777,
    ensures
        i !is CMAL ==> (spec_step(s, i, time) matches Ok(v) ==> !v.0.compare && !v.0.equal
            && !v.0.greater),
        spec_step(s, Instruction::JPALZ { y }, time) matches Ok(v) ==> v.0.p == if (if s.compare {
            s.equal
        } else {
            s.al == 0
        }) {
            spec_p_addr(s, y as int) as u32
        } else {
            ((s.p + 1) % 0o1000000) as u32
        },
{
    match spec_tick(s, time) {
        Ok(t) => {
            let t0 = MachineView { compare: false, equal: false, greater: false, ..t };
            lemma_execute_frame(t0, i, s.compare, s.equal, s.greater);
        },
        Err(_) => {},
    }
}

proof fn lemma_next_in_bank(p: int, y: int)
    requires
        0 <= p <= 0o777777,
        0 <= y < 0o7777,
    ensures
        0 <= (p / 4096) * 4096 + y < 0o1000000,
        ((((p / 4096) * 4096 + y + 1) % 0o1000000) / 4096) * 4096 + y == (p / 4096) * 4096 + y,
{
    let b = p / 4096;
    assert(0 <= b < 64);
    let t = b * 4096 + y;
    assert(t + 1 < 0o1000000);
    assert((t + 1) % 0o1000000 == t + 1);
    assert((b * 4096 + (y + 1)) / 4096 == b) by (nonlinear_arith)
        requires
            0 <= y + 1 < 4096,
            b >= 0,
    ;
}

proof fn lemma_step_return_jump(s: MachineView, y: u16, t: int)
    ensures
        spec_step(s, Instruction::RJP { y }, t) == match spec_tick(s, t) {
            Ok(u) => {
                let u0 = MachineView { compare: false, equal: false, greater: false, ..u };
                spec_return_to(u0, spec_p_addr(u0, y as int))
            },
            Err(e) => Err(e),
        },
{
}

proof fn lemma_step_indirect_jump(s: MachineView, y: u16, t: int)
    ensures
        spec_step(s, Instruction::IJP { y }, t) == match spec_tick(s, t) {
            Ok(u) => spec_indirect_jump(
                MachineView { compare: false, equal: false, greater: false, ..u },
                y as int,
            ),
            Err(e) => Err(e),
        },
{
}

/// A return jump followed at once by an indirect jump through the same
/// address comes back to the word after the return jump, when the address
/// lies in the bank of the word after it and is not the real-time clock's
/// register while the clock runs.
#[verifier::spinoff_prover]
#[verifier::rlimit(100)]
pub proof fn law_return_jump_round_trip(s: MachineView, y: u16, t1: int, t2: int)
    requires
        machine_wf(s),
        y < 0o7777,
        s.rtc_enabled ==> spec_p_addr(s, y as int) != RTC_ADDRESS,
    ensures
        spec_step(s, Instruction::RJP { y }, t1) matches Ok(v1) ==> (spec_step(
            v1.0,
            Instruction::IJP { y },
            t2,
        ) matches Ok(v2) ==> v2.0.p == (s.p + 1) % 0o1000000),
{
    lemma_step_return_jump(s, y, t1);
    if let Ok(u) = spec_tick(s, t1) {
        let u0 = MachineView { compare: false, equal: false, greater: false, ..u };
        let target = spec_p_addr(u0, y as int);
        lemma_next_in_bank(s.p as int, y as int);
        if let Ok(v1) = spec_return_to(u0, target) {
            let m1 = v1.0;
            assert(m1.memory[target] == ((s.p + 1) % 0o1000000) as u32);
            assert(m1.p == (target + 1) % 0o1000000);
            lemma_step_indirect_jump(m1, y, t2);
            if let Ok(w) = spec_tick(m1, t2) {
                let w0 = MachineView { compare: false, equal: false, greater: false, ..w };
                assert(w0.memory[target] == m1.memory[target]);
                assert(spec_p_addr(w0, y as int) == target);
            }
        }
    }
}

/// An instruction that is carried out advances the elapsed time by exactly
/// its time.
pub proof fn law_step_advances_time(s: MachineView, i: Instruction, time: int)
    requires
        time >= 0,
    ensures
        spec_step(s, i, time) matches Ok(v) ==> v.0.time_microseconds == s.time_microseconds
            + time,
{
    match spec_tick(s, time) {
        Ok(t) => {
            let t0 = MachineView { compare: false, equal: false, greater: false, ..t };
            lemma_execute_frame(t0, i, s.compare, s.equal, s.greater);
        },
        Err(_) => {},
    }
}

} // verus!
