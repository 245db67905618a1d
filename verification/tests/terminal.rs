use univac::terminal::{Terminal, TerminalSegment, TERM_WIDTH};

fn texts(t: &Terminal) -> Vec<(String, u8, u32)> {
    t.segments.iter().map(|s| (s.text.clone(), s.start_x, s.start_y)).collect()
}

#[test]
fn terminal_new_is_blank() {
    let t = Terminal::new();
    assert_eq!(t.segments.len(), 1);
    assert_eq!(t.segments[0].id, 0);
    assert_eq!(t.segments[0].text, "");
    assert_eq!((t.cursor_x, t.cursor_y), (0, 0));
}

#[test]
fn write_char_continues_a_segment() {
    let mut t = Terminal::new();
    t.push_string("AB");
    assert_eq!(texts(&t), vec![(String::from("AB"), 0, 0)]);
    assert_eq!(t.cursor_x, 2);
}

#[test]
fn carriage_return_overstrikes_in_a_new_segment() {
    let mut t = Terminal::new();
    t.push_string("AB\r__");
    assert_eq!(
        texts(&t),
        vec![(String::from("AB"), 0, 0), (String::from("__"), 0, 0)]
    );
    assert_eq!(t.segments[1].id, 1);
}

#[test]
fn line_feed_moves_down_without_return() {
    let mut t = Terminal::new();
    t.push_string("A\nB");
    assert_eq!(
        texts(&t),
        vec![(String::from("A"), 0, 0), (String::from("B"), 1, 1)]
    );
    assert_eq!((t.cursor_x, t.cursor_y), (2, 1));
}

#[test]
fn cursor_stops_at_last_column() {
    let mut t = Terminal::new();
    for _ in 0..100 {
        t.write_char('X');
    }
    assert_eq!(t.cursor_x, TERM_WIDTH - 1);
    let printed: usize = t.segments.iter().map(|s| s.text.chars().count()).sum();
    assert_eq!(printed, 100);
}

#[test]
fn printed_text_is_never_lost() {
    let mut t = Terminal::new();
    t.push_string("HELLO\rJELLO\n\rWORLD");
    let printed: usize = t.segments.iter().map(|s| s.text.chars().count()).sum();
    assert_eq!(printed, 15);
}

#[test]
fn segment_is_end_counts_text_width() {
    let mut s = TerminalSegment::new(3, 2, 5);
    assert!(s.is_end(2, 5));
    s.append_char('Q');
    assert!(s.is_end(3, 5));
    assert!(!s.is_end(3, 4));
    assert!(!s.is_end(2, 5));
    assert_eq!(s.id, 3);
}
