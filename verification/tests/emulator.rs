use univac::emulator::{State, StepError};
use univac::instruction::Instruction;
use univac::io::Mode;

fn machine_with(memory: Vec<u32>) -> State {
    State::new(memory, vec![])
}

#[test]
fn state_new_is_cleared() {
    let s = machine_with(vec![0; 8]);
    assert_eq!(s.p, 0);
    assert_eq!(s.au, 0);
    assert_eq!(s.al, 0);
    assert!(!s.running);
    assert_eq!(s.io.state, Mode::TermOutput);
    assert_eq!(s.memory.len(), 8);
}

#[test]
fn step_ental_loads_al_and_advances() {
    let mut memory = vec![0; 64];
    memory[5] = 42;
    let mut s = machine_with(memory);
    assert_eq!(s.step(Instruction::ENTAL { y: 5 }, 8), Ok(None));
    assert_eq!(s.al, 42);
    assert_eq!(s.p, 1);
    assert_eq!(s.time_microseconds, 8);
}

#[test]
fn step_addal_adds_in_ones_complement() {
    let mut memory = vec![0; 64];
    memory[5] = 0o777776;
    let mut s = machine_with(memory);
    s.al = 1;
    assert_eq!(s.step(Instruction::ADDAL { y: 5 }, 8), Ok(None));
    assert_eq!(s.al, 0);
}

#[test]
fn step_jp_jumps_in_bank() {
    let mut s = machine_with(vec![0; 64]);
    s.p = 0o10003;
    assert_eq!(s.step(Instruction::JP { y: 0o20 }, 8), Ok(None));
    assert_eq!(s.p, 0o10020);
}

#[test]
fn step_rjp_stores_return_address() {
    let mut s = machine_with(vec![0; 64]);
    s.p = 3;
    assert_eq!(s.step(Instruction::RJP { y: 0o10 }, 8), Ok(None));
    assert_eq!(s.memory[0o10], 4);
    assert_eq!(s.p, 0o11);
}

#[test]
fn step_out_prints_the_buffer() {
    let mut memory = vec![0; 16];
    memory[1] = 12;
    memory[2] = 10;
    memory[10] = 72;
    memory[11] = 73;
    memory[12] = 10;
    let mut s = machine_with(memory);
    assert_eq!(s.step(Instruction::OUT { k: 0 }, 8), Ok(Some(vec!['H', 'I', '\n'])));
    assert_eq!(s.p, 3);
}

#[test]
fn step_stop_halts_on_selected_switch() {
    let mut s = machine_with(vec![0; 8]);
    s.running = true;
    s.stop = 1;
    assert_eq!(s.step(Instruction::STOP { k: 1 }, 8), Ok(None));
    assert!(!s.running);
    assert_eq!(s.stopped, 1);
}

#[test]
fn step_stop_ignored_without_switch() {
    let mut s = machine_with(vec![0; 8]);
    s.running = true;
    assert_eq!(s.step(Instruction::STOP { k: 1 }, 8), Ok(None));
    assert!(s.running);
    assert_eq!(s.p, 1);
}

#[test]
fn step_entalk_sign_extends() {
    let mut s = machine_with(vec![0; 8]);
    assert_eq!(s.step(Instruction::ENTALK { u: 0o7776 }, 8), Ok(None));
    assert_eq!(s.al, 0o777776);
}

#[test]
fn step_reports_address_out_of_range() {
    let mut s = machine_with(vec![0; 64]);
    assert_eq!(
        s.step(Instruction::ENTAL { y: 100 }, 8),
        Err(StepError::AddressOutOfRange { address: 100 })
    );
}

#[test]
fn step_reports_register_overflow() {
    let mut s = machine_with(vec![0; 8]);
    assert_eq!(
        s.step(Instruction::ENTICR { k: 8 }, 8),
        Err(StepError::RegisterOverflow { value: 8 })
    );
}

#[test]
fn step_reports_clock_overflow() {
    let mut s = machine_with(vec![0; 8]);
    s.time_microseconds = u64::MAX;
    assert_eq!(s.step(Instruction::RND, 1), Err(StepError::ClockOverflow));
}

#[test]
fn step_reports_unknown_external_function() {
    let mut memory = vec![0; 8];
    memory[1] = 0;
    memory[2] = 5;
    memory[5] = 3;
    let mut s = machine_with(memory);
    assert_eq!(
        s.step(Instruction::EXF { k: 0 }, 8),
        Err(StepError::UnknownExternalFunction { code: 3 })
    );
}

#[test]
fn step_cpal_keeps_positive_zero() {
    let mut s = machine_with(vec![0; 8]);
    s.al = 0;
    assert_eq!(s.step(Instruction::CPAL, 8), Ok(None));
    assert_eq!(s.al, 0);
}

#[test]
fn step_reports_odd_address() {
    let mut s = machine_with(vec![0; 64]);
    assert_eq!(
        s.step(Instruction::ADDA { y: 5 }, 8),
        Err(StepError::OddAddress { address: 5 })
    );
}

#[test]
fn step_reports_tape_empty() {
    let mut memory = vec![0; 16];
    memory[1] = 10;
    memory[2] = 10;
    let mut s = machine_with(memory);
    s.io.state = Mode::TapeInput;
    assert_eq!(s.step(Instruction::IN { k: 0 }, 8), Err(StepError::TapeEmpty));
}

#[test]
fn step_in_reads_a_tape_frame() {
    let mut memory = vec![0; 16];
    memory[1] = 10;
    memory[2] = 10;
    let mut s = State::new(memory, vec![0o42]);
    s.io.state = Mode::TapeInput;
    assert_eq!(s.step(Instruction::IN { k: 0 }, 8), Ok(None));
    assert_eq!(s.memory[10], 0o42);
    assert_eq!(s.p, 3);
}

#[test]
fn step_reports_output_range() {
    let mut memory = vec![0; 16];
    memory[1] = 3;
    memory[2] = 10;
    let mut s = machine_with(memory);
    assert_eq!(
        s.step(Instruction::OUT { k: 0 }, 8),
        Err(StepError::OutputRange { iacw: 10, tacw: 3 })
    );
}

#[test]
fn step_reports_shift_out_of_range() {
    let mut s = machine_with(vec![0; 8]);
    s.au = 0o400000;
    assert_eq!(
        s.step(Instruction::RSHAU { k: 19 }, 8),
        Err(StepError::ShiftOutOfRange { count: 19 })
    );
}

#[test]
fn step_rshau_shifts_with_sign() {
    let mut s = machine_with(vec![0; 8]);
    s.au = 0o400000;
    assert_eq!(s.step(Instruction::RSHAU { k: 2 }, 8), Ok(None));
    assert_eq!(s.au, 0o700000);
}

#[test]
fn step_rtc_counts_ticks() {
    let mut s = machine_with(vec![0; 16]);
    assert_eq!(s.step(Instruction::RTC, 8), Ok(None));
    assert!(s.rtc_enabled);
    assert_eq!(s.step(Instruction::RND, 1_000_000), Ok(None));
    assert_eq!(s.memory[0o15], 1024);
}

#[test]
fn describe_shows_registers() {
    let mut s = machine_with(vec![0; 8]);
    assert_eq!(s.describe(), "P: 000000 AU: 000000 AL: 000000 ICR: 0 SR: 00000");
    s.p = 0o540;
    s.au = 0o777777;
    s.al = 5;
    s.icr = 7;
    s.sr = 9;
    assert_eq!(s.describe(), "P: 000540 AU: 777777 AL: 000005 ICR: 7 SR: 01001");
}

#[test]
fn step_adda_adds_double_words() {
    let mut memory = vec![0; 8];
    memory[4] = 3;
    let mut s = machine_with(memory);
    s.al = 5;
    assert_eq!(s.step(Instruction::ADDA { y: 4 }, 8), Ok(None));
    assert_eq!((s.au, s.al), (0, 8));
}

#[test]
fn step_suba_subtracts_in_ones_complement() {
    let mut memory = vec![0; 8];
    memory[4] = 5;
    let mut s = machine_with(memory);
    s.al = 3;
    assert_eq!(s.step(Instruction::SUBA { y: 4 }, 8), Ok(None));
    // -2 in 36 bits
    assert_eq!((s.au, s.al), (0o777777, 0o777775));
}
