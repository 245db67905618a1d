use univac::io::{Mode, UnknownExternalFunction, IO};

#[test]
fn mode_try_from_known_codes() {
    assert_eq!(Mode::try_from(9), Ok(Mode::TermOutput));
    assert_eq!(Mode::try_from(11), Ok(Mode::TermOutput));
    assert_eq!(Mode::try_from(25), Ok(Mode::TermInput));
    assert_eq!(Mode::try_from(105), Ok(Mode::TapeInput));
}

#[test]
fn mode_try_from_unknown_code() {
    assert_eq!(Mode::try_from(7), Err(String::from("Unknown External Function 7")));
    assert_eq!(Mode::try_from(0o777777), Err(String::from("Unknown External Function 262143")));
}

#[test]
fn unknown_external_function_message() {
    assert_eq!(UnknownExternalFunction { code: 0 }.message(), "Unknown External Function 0");
    assert_eq!(UnknownExternalFunction { code: 1234 }.message(), "Unknown External Function 1234");
}

#[test]
fn to_tty_char_maps_the_teletype_set() {
    assert_eq!(IO::to_tty_char(65), Some('A'));
    assert_eq!(IO::to_tty_char(97), Some('A'));
    assert_eq!(IO::to_tty_char(10), Some('\n'));
    assert_eq!(IO::to_tty_char(13), Some('\r'));
    assert_eq!(IO::to_tty_char(94), Some('\u{2191}'));
    assert_eq!(IO::to_tty_char(95), Some('\u{2190}'));
    assert_eq!(IO::to_tty_char(0), None);
    assert_eq!(IO::to_tty_char(124), None);
    // only the low seven bits count
    assert_eq!(IO::to_tty_char(0o400101), Some('A'));
}

#[test]
fn of_tty_char_upper_cases() {
    assert_eq!(IO::of_tty_char(b'a'), 65);
    assert_eq!(IO::of_tty_char(b'Z'), 90);
    assert_eq!(IO::of_tty_char(b'\r'), 13);
}

#[test]
fn io_new_starts_in_terminal_output() {
    let io = IO::new(vec![1, 2]);
    assert_eq!(io.state, Mode::TermOutput);
    assert_eq!(io.tacw, 0);
    assert_eq!(io.iacw, 0);
    assert_eq!(io.tape, vec![1, 2]);
}

#[test]
fn external_function_selects_mode() {
    let mut io = IO::new(vec![]);
    io.iacw = 1;
    let memory = vec![0, 25];
    assert_eq!(io.external_function(&memory, 0), Ok(()));
    assert_eq!(io.state, Mode::TermInput);
}

#[test]
fn external_function_refuses_unknown_code() {
    let mut io = IO::new(vec![]);
    let memory = vec![3];
    assert_eq!(
        io.external_function(&memory, 0),
        Err(UnknownExternalFunction { code: 3 })
    );
    assert_eq!(io.state, Mode::TermOutput);
}

#[test]
fn write_renders_words() {
    let mut io = IO::new(vec![]);
    io.iacw = 1;
    io.tacw = 3;
    let memory = vec![0, 72, 105, 10];
    assert_eq!(io.write(&memory, 0), vec!['H', 'I', '\n']);
}

#[test]
fn read_takes_a_tape_frame() {
    let mut io = IO::new(vec![0o42, 0o43]);
    io.state = Mode::TapeInput;
    io.iacw = 1;
    let mut memory = vec![0, 0];
    io.read(&mut memory, 0);
    assert_eq!(memory, vec![0, 0o42]);
    assert_eq!(io.iacw, 2);
    assert_eq!(io.tape, vec![0o43]);
}

#[test]
fn read_does_nothing_outside_tape_input() {
    let mut io = IO::new(vec![0o42]);
    let mut memory = vec![0, 0];
    io.read(&mut memory, 0);
    assert_eq!(memory, vec![0, 0]);
    assert_eq!(io.tape, vec![0o42]);
}

#[test]
fn input_async_stores_and_echoes() {
    let mut io = IO::new(vec![]);
    io.state = Mode::TermInput;
    io.iacw = 0;
    io.tacw = 0;
    let mut memory = vec![0, 0];
    assert_eq!(io.input_async(&mut memory, b'a'), Some('A'));
    assert_eq!(memory, vec![65, 0]);
    assert_eq!(io.iacw, 1);
    // past the terminal address: echoed, not stored
    assert_eq!(io.input_async(&mut memory, b'b'), Some('B'));
    assert_eq!(memory, vec![65, 0]);
    assert_eq!(io.iacw, 1);
}

#[test]
fn input_async_ignored_outside_terminal_input() {
    let mut io = IO::new(vec![]);
    let mut memory = vec![0];
    assert_eq!(io.input_async(&mut memory, b'a'), None);
    assert_eq!(memory, vec![0]);
}

#[test]
fn typed_keys_echo_upper_case() {
    for key in 32u8..=93 {
        assert_eq!(IO::to_tty_char(IO::of_tty_char(key)), Some(key as char));
    }
    for key in 97u8..=122 {
        assert_eq!(IO::to_tty_char(IO::of_tty_char(key)), Some((key - 32) as char));
    }
}
