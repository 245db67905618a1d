use univac::instruction::Instruction;
use univac::io::Mode;
use univac::machine::{MachineState, TapeFile};

#[test]
fn tape_file_keeps_name_and_length() {
    let f = TapeFile::new(String::from("PI.76"), 1234);
    assert_eq!(f.name, "PI.76");
    assert_eq!(f.length, 1234);
}

#[test]
fn machine_state_new_is_blank() {
    let m = MachineState::new(vec![0; 8], vec![1]);
    assert!(m.tape_file.is_none());
    assert!(!m.show_memory);
    assert_eq!(m.emulator.io.tape, vec![1]);
    assert_eq!(m.terminal.segments.len(), 1);
}

#[test]
fn machine_step_prints_output() {
    let mut memory = vec![0; 16];
    memory[1] = 11;
    memory[2] = 10;
    memory[10] = 79;
    memory[11] = 75;
    let mut m = MachineState::new(memory, vec![]);
    assert_eq!(m.step(Instruction::OUT { k: 0 }, 8), Ok(()));
    assert_eq!(m.terminal.segments[0].text, "OK");
    assert_eq!(m.emulator.p, 3);
}

#[test]
fn machine_input_echoes_key() {
    let mut m = MachineState::new(vec![0; 8], vec![]);
    m.emulator.io.state = Mode::TermInput;
    m.emulator.io.iacw = 4;
    m.emulator.io.tacw = 5;
    m.input_async(b'q');
    assert_eq!(m.emulator.memory[4], 81);
    assert_eq!(m.emulator.io.iacw, 5);
    assert_eq!(m.terminal.segments[0].text, "Q");
}

use univac::machine::{load_tape, register, stop_light, SwitchLight, START_ADDRESS};

#[test]
fn reset_clears_registers_and_returns_to_start() {
    let mut m = MachineState::new(vec![0; 8], vec![]);
    m.emulator.running = true;
    m.emulator.au = 5;
    m.emulator.al = 6;
    m.emulator.p = 7;
    m.emulator.icr = 3;
    m.emulator.sr = 9;
    m.reset();
    assert!(!m.emulator.running);
    assert_eq!((m.emulator.au, m.emulator.al, m.emulator.icr, m.emulator.sr), (0, 0, 0, 0));
    assert_eq!(m.emulator.p, START_ADDRESS);
    assert_eq!(START_ADDRESS, 0o540);
}

#[test]
fn run_program_mounts_and_runs() {
    let mut m = MachineState::new(vec![0; 8], vec![1]);
    m.run_program(vec![2, 3]);
    assert!(m.emulator.running);
    assert_eq!(m.emulator.io.tape, vec![2, 3]);
    assert_eq!(m.emulator.p, 0o540);
}

#[test]
fn mount_tape_records_the_file() {
    let mut m = MachineState::new(vec![0; 8], vec![]);
    m.mount_tape(String::from("PROG.76"), vec![0, 0o76, 1]);
    let f = m.tape_file.as_ref().unwrap();
    assert_eq!(f.name, "PROG.76");
    assert_eq!(f.length, 3);
    assert_eq!(m.emulator.io.tape, vec![0, 0o76, 1]);
}

#[test]
fn press_enter_sends_line_feed_then_return() {
    let mut m = MachineState::new(vec![0; 8], vec![]);
    m.emulator.io.state = Mode::TermInput;
    m.emulator.io.iacw = 2;
    m.emulator.io.tacw = 5;
    m.press_key(13);
    assert_eq!(m.emulator.memory[2], 10);
    assert_eq!(m.emulator.memory[3], 13);
    assert_eq!(m.emulator.io.iacw, 4);
    assert_eq!((m.terminal.cursor_x, m.terminal.cursor_y), (0, 1));
}

#[test]
fn switches_toggle() {
    let mut m = MachineState::new(vec![0; 8], vec![]);
    m.toggle_stop(5);
    assert_eq!(m.emulator.stop, 0b100000);
    m.toggle_stop(5);
    assert_eq!(m.emulator.stop, 0);
    m.toggle_skip(2);
    assert_eq!(m.emulator.skip, 0b100);
}

#[test]
fn stop_lamps() {
    assert_eq!(stop_light(1, 0b10, 0b10), SwitchLight::Stopped);
    assert_eq!(stop_light(1, 0b10, 0), SwitchLight::On);
    assert_eq!(stop_light(0, 0b10, 0), SwitchLight::Off);
}

#[test]
fn register_text_keeps_its_digits() {
    assert_eq!(register(0o123456, 6), "123456");
    assert_eq!(register(5, 1), "5");
    assert_eq!(register(0o17, 1), "7");
    assert_eq!(register(0o21, 2), "21");
    assert_eq!(register(3, 2), "03");
}

#[test]
fn load_tape_reads_text_frames() {
    assert_eq!(load_tape(" 1 \n 2 \n"), Some(vec![1, 2]));
    assert_eq!(load_tape("99\n"), None);
}

use univac::machine::inspector_row;

#[test]
fn inspector_rows_mark_p() {
    let memory: Vec<u32> = (0..10).collect();
    let (header, cells) = inspector_row(&memory, 1, 9);
    assert_eq!(header, "000010");
    assert_eq!(cells.len(), 2);
    assert_eq!(cells[0].text, "000010");
    assert!(!cells[0].at_p);
    assert_eq!(cells[1].text, "000011");
    assert!(cells[1].at_p);
    let (header0, cells0) = inspector_row(&memory, 0, 9);
    assert_eq!(header0, "000000");
    assert_eq!(cells0.len(), 8);
}

use univac::machine::{is_poll_time, should_pause, POLL_INTERVAL};

#[test]
fn poll_every_ten_milliseconds() {
    assert_eq!(POLL_INTERVAL, 10_000);
    assert!(is_poll_time(0));
    assert!(is_poll_time(20_009));
    assert!(!is_poll_time(20_010));
    assert!(!is_poll_time(15));
}

#[test]
fn pause_only_when_ahead_of_wall_clock() {
    assert!(should_pause(true, 100, 20_000, 10_000));
    assert!(!should_pause(true, 10_000, 20_000, 10_000));
    assert!(!should_pause(false, 100, 20_000, 10_000));
    assert!(!should_pause(true, u64::MAX, u64::MAX, u64::MAX));
}

use univac::machine::RunError;

fn toy_decode(word: u32) -> Option<(Instruction, u64)> {
    match word {
        1 => Some((Instruction::ENTALK { u: 5 }, 8)),
        2 => Some((Instruction::STOP { k: 0o40 }, 8)),
        _ => None,
    }
}

#[test]
fn run_frame_runs_until_stop() {
    let mut m = MachineState::new(vec![1, 1, 2, 0], vec![]);
    m.emulator.running = true;
    m.emulator.time_microseconds = 500;
    assert_eq!(m.run_frame(1000, &toy_decode), Ok(()));
    assert!(!m.emulator.running);
    assert_eq!(m.emulator.al, 5);
    assert_eq!(m.emulator.p, 3);
    assert_eq!(m.emulator.time_microseconds, 24);
}

#[test]
fn run_frame_stops_at_the_budget() {
    let mut m = MachineState::new(vec![1; 16], vec![]);
    m.emulator.running = true;
    assert_eq!(m.run_frame(20, &toy_decode), Ok(()));
    assert!(m.emulator.running);
    assert_eq!(m.emulator.time_microseconds, 24);
    assert_eq!(m.emulator.p, 3);
}

#[test]
fn run_frame_refuses_undecodable_word() {
    let mut m = MachineState::new(vec![7], vec![]);
    m.emulator.running = true;
    assert_eq!(m.run_frame(20, &toy_decode), Err(RunError::Undecodable { address: 0, word: 7 }));
}

#[test]
fn run_frame_does_nothing_when_stopped() {
    let mut m = MachineState::new(vec![1], vec![]);
    m.emulator.time_microseconds = 77;
    assert_eq!(m.run_frame(20, &toy_decode), Ok(()));
    assert_eq!(m.emulator.time_microseconds, 77);
    assert_eq!(m.emulator.al, 0);
}

#[test]
fn register_widths_zero_to_ten() {
    assert_eq!(register(5, 0), "0");
    assert_eq!(register(0xFFFF_FFFF, 10), "7777777777");
    assert_eq!(register(0o123, 7), "0000123");
}
