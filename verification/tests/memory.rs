use univac::memory::{describe_word, load, print, Layout, LayoutSegment, WordDisplay};
use univac::instruction::Instruction;
use univac::tape::TapeReader;

fn sample_segment() -> LayoutSegment {
    LayoutSegment { start_addr: 0o100, data: vec![1, 2] }
}

#[test]
fn segment_encode_76_writes_header_words_and_checksum() {
    assert_eq!(
        sample_segment().encode_76(),
        vec![0o76, 0, 0o10, 0, 1, 1, 0, 0, 1, 0, 0, 2, 0, 0, 3]
    );
}

#[test]
fn segment_end_addr_is_last_address() {
    assert_eq!(sample_segment().end_addr(), 0o101);
    let wrapping = LayoutSegment { start_addr: 0o777777, data: vec![5, 6] };
    assert_eq!(wrapping.end_addr(), 0);
}

#[test]
fn segment_get_reads_by_address() {
    let s = sample_segment();
    assert_eq!(s.get(0o100), 1);
    assert_eq!(s.get(0o101), 2);
}

#[test]
fn segment_enumerate_pairs_addresses() {
    assert_eq!(sample_segment().enumerate(), vec![(0o100, 1), (0o101, 2)]);
}

#[test]
fn segment_decode_76_reads_back() {
    let mut reader = TapeReader::new(sample_segment().encode_76());
    let s = LayoutSegment::decode_76(&mut reader).unwrap();
    assert_eq!(s.start_addr, 0o100);
    assert_eq!(s.data, vec![1, 2]);
    assert_eq!(reader.len(), 0);
}

#[test]
fn layout_encode_76_ends_with_start_address() {
    let layout = Layout { segments: vec![sample_segment()], start_address: 0o100 };
    let tape = layout.encode_76();
    let mut expected = vec![0];
    expected.extend(vec![0o76, 0, 0o10, 0, 1, 1, 0, 0, 1, 0, 0, 2, 0, 0, 3]);
    expected.extend(vec![0, 0, 0, 0, 0, 0, 0o77, 0, 0o01, 0]);
    assert_eq!(tape, expected);
}

#[test]
fn layout_roundtrip() {
    let layout = Layout {
        segments: vec![
            sample_segment(),
            LayoutSegment { start_addr: 0o2000, data: vec![0o777777, 0, 0o400000] },
        ],
        start_address: 0o2001,
    };
    let mut reader = TapeReader::new(layout.encode_76());
    let back = Layout::decode_76(&mut reader).unwrap();
    assert_eq!(back.start_address, 0o2001);
    assert_eq!(back.segments.len(), 2);
    assert_eq!(back.segments[0].start_addr, 0o100);
    assert_eq!(back.segments[0].data, vec![1, 2]);
    assert_eq!(back.segments[1].start_addr, 0o2000);
    assert_eq!(back.segments[1].data, vec![0o777777, 0, 0o400000]);
}

#[test]
fn layout_decode_76_without_start_address_starts_at_zero() {
    let mut reader = TapeReader::new(vec![0, 0, 0]);
    let layout = Layout::decode_76(&mut reader).unwrap();
    assert_eq!(layout.start_address, 0);
    assert_eq!(layout.segments.len(), 0);
}

#[test]
fn layout_decode_76_refuses_a_cut_segment() {
    let mut reader = TapeReader::new(vec![0o76, 0, 0o10]);
    assert!(Layout::decode_76(&mut reader).is_none());
}

#[test]
fn load_pads_memory_to_forty_k() {
    let memory = load("1\n\n2\r\n").unwrap();
    assert_eq!(memory.len(), 40960);
    assert_eq!(memory[0], 1);
    assert_eq!(memory[1], 2);
    assert_eq!(memory[2], 0);
}

#[test]
fn load_refuses_a_wide_word() {
    assert!(load("262144\n").is_none());
    assert!(load("262143\n").is_some());
    assert!(load("seven\n").is_none());
}

#[test]
fn print_dumps_eight_words_a_line() {
    let memory: Vec<u32> = (0..10).collect();
    let lines = print(&memory, 0, 10);
    assert_eq!(
        lines,
        vec![
            String::from("000000\t| 000000 000001 000002 000003 000004 000005 000006 000007 "),
            String::from("000010\t| 000010 000011 "),
        ]
    );
    assert_eq!(print(&memory, 3, 3).len(), 0);
}

#[test]
fn describe_word_prefers_the_decoding() {
    assert_eq!(
        describe_word(65, Some(Instruction::RND)),
        WordDisplay::Instruction { instruction: Instruction::RND }
    );
    assert_eq!(describe_word(65, None), WordDisplay::Character { c: 'A' });
    assert_eq!(describe_word(127, None), WordDisplay::Character { c: '\u{7f}' });
    assert_eq!(describe_word(128, None), WordDisplay::Plain);
    assert_eq!(describe_word(31, None), WordDisplay::Plain);
}

use univac::memory::print_instructions;

#[test]
fn print_instructions_lists_each_address() {
    let memory = vec![0, 65, 200, 7];
    let decoded = vec![None, None, Some(Instruction::SIL)];
    assert_eq!(
        print_instructions(&memory, 1, 4, &decoded),
        vec![
            (1, WordDisplay::Character { c: 'A' }),
            (2, WordDisplay::Plain),
            (3, WordDisplay::Instruction { instruction: Instruction::SIL }),
        ]
    );
}

#[test]
fn segment_decode_76_refuses_other_headers() {
    let mut reader = TapeReader::new(vec![0o77, 0, 0, 0]);
    assert!(LayoutSegment::decode_76(&mut reader).is_none());
    let mut empty = TapeReader::new(vec![]);
    assert!(LayoutSegment::decode_76(&mut empty).is_none());
}

#[test]
fn segment_roundtrip_leaves_the_rest() {
    let mut tape = sample_segment().encode_76();
    tape.extend(vec![0o12, 0o34]);
    let mut reader = TapeReader::new(tape);
    let s = LayoutSegment::decode_76(&mut reader).unwrap();
    assert_eq!(s.start_addr, 0o100);
    assert_eq!(s.data, vec![1, 2]);
    assert_eq!(reader.next(), Some(0o12));
    assert_eq!(reader.next(), Some(0o34));
    assert_eq!(reader.next(), None);
}
