use univac::assembler::{assemble, encode, layout, parse, AssembleError, Code, SymbolTable};
use univac::instruction::Instruction;
use univac::memory::Layout;
use univac::tape::TapeReader;

fn encoder(i: Instruction, operand: u32) -> u32 {
    match i {
        Instruction::ENTAL { .. } => 0o220000 | operand,
        Instruction::JP { .. } => 0o300000 | operand,
        _ => operand,
    }
}

fn decode(tape: Vec<u8>) -> Layout {
    let mut reader = TapeReader::new(tape);
    Layout::decode_76(&mut reader).unwrap()
}

#[test]
fn assemble_small_program() {
    let lines = vec![
        "ORG &O100",
        ">START ENTAL DATA1",
        "JP START ; loop forever",
        ">DATA1 DATA &O7",
        "SADD START",
    ];
    let tape = assemble(&lines, encoder).unwrap();
    let layout = decode(tape);
    assert_eq!(layout.start_address, 0o100);
    assert_eq!(layout.segments.len(), 1);
    assert_eq!(layout.segments[0].start_addr, 0o100);
    assert_eq!(layout.segments[0].data, vec![0o220102, 0o300100, 7]);
}

#[test]
fn assemble_writes_the_layout_tape() {
    let lines = vec!["ORG 8", "DATA 5", "DATA LOK+1"];
    let tape = assemble(&lines, encoder).unwrap();
    let expected = Layout {
        segments: vec![univac::memory::LayoutSegment { start_addr: 8, data: vec![5, 10] }],
        start_address: 0,
    }
    .encode_76();
    assert_eq!(tape, expected);
}

#[test]
fn assemble_even_pads_to_even_address() {
    let lines = vec!["ORG 1", "EVEN", "DATA 3"];
    let layout = decode(assemble(&lines, encoder).unwrap());
    assert_eq!(layout.segments[0].start_addr, 1);
    assert_eq!(layout.segments[0].data, vec![0, 3]);
}

#[test]
fn assemble_ascii_strings() {
    let lines = vec!["ORG 0", "AS HI!", "AW OK"];
    let layout = decode(assemble(&lines, encoder).unwrap());
    // narrow: two characters a word, end marked by bit 8
    let h = 72u32;
    let i = 73u32;
    let bang = 33u32;
    let space = 32u32;
    assert_eq!(
        layout.segments[0].data,
        vec![(h << 9) | i, ((bang | 0o400) << 9) | space, 79, 75 | 0o400]
    );
}

#[test]
fn assemble_later_label_definition_wins() {
    let lines = vec!["ORG 0", ">X DATA 1", ">X DATA 2", "DATA X"];
    let layout = decode(assemble(&lines, encoder).unwrap());
    assert_eq!(layout.segments[0].data, vec![1, 2, 1]);
}

#[test]
fn assemble_symbol_offsets() {
    let lines = vec!["ORG &O10", ">A DATA A+2", "DATA A-1", "DATA LOK-1"];
    let layout = decode(assemble(&lines, encoder).unwrap());
    assert_eq!(layout.segments[0].data, vec![0o12, 0o7, 0o11]);
}

#[test]
fn assemble_refuses_unknown_instruction() {
    let lines = vec!["ORG 0", "FOO 1"];
    assert_eq!(assemble(&lines, encoder), Err(AssembleError::UnknownInstruction { line: 1 }));
}

#[test]
fn assemble_refuses_code_before_org() {
    let lines = vec!["DATA 1"];
    assert_eq!(assemble(&lines, encoder), Err(AssembleError::NoOrgBlock { line: 0 }));
}

#[test]
fn assemble_refuses_org_without_number() {
    let lines = vec!["ORG START"];
    assert_eq!(assemble(&lines, encoder), Err(AssembleError::OrgWithoutAddress { line: 0 }));
}

#[test]
fn assemble_refuses_undefined_symbol() {
    let lines = vec!["ORG 0", "DATA NOWHERE"];
    assert_eq!(assemble(&lines, encoder), Err(AssembleError::UndefinedSymbol));
}

#[test]
fn assemble_refuses_empty_block() {
    let lines = vec!["ORG 0"];
    assert_eq!(assemble(&lines, encoder), Err(AssembleError::EmptyBlock));
}

#[test]
fn assemble_refuses_wide_value() {
    let lines = vec!["ORG 0", "DATA 262144"];
    assert_eq!(assemble(&lines, encoder), Err(AssembleError::ValueTooLarge));
}

#[test]
fn assemble_refuses_bad_offset() {
    let lines = vec!["ORG 0", "DATA X+Y"];
    assert_eq!(assemble(&lines, encoder), Err(AssembleError::InvalidOffset));
}

#[test]
fn assemble_refuses_label_without_code_separator() {
    let lines = vec!["ORG 0", ">LONELY"];
    assert_eq!(assemble(&lines, encoder), Err(AssembleError::MissingLabelSeparator { line: 1 }));
}

#[test]
fn assemble_refuses_too_long_string() {
    let text = format!("AW {}", "A".repeat(262144));
    let lines = vec!["ORG 0", text.as_str()];
    assert_eq!(assemble(&lines, encoder), Err(AssembleError::TooLong));
}

#[test]
fn parse_layout_encode_by_steps() {
    let lines = vec!["ORG 4", ">L DATA L"];
    let program = parse(&lines).unwrap();
    let (blocks, symbols) = layout(&program).unwrap();
    assert_eq!(blocks.len(), 1);
    assert_eq!(blocks[0].len(), 1);
    assert_eq!(blocks[0][0].0, 4);
    assert!(matches!(blocks[0][0].1, Code::Data { .. }));
    let memory = encode(blocks, &symbols, &program, &encoder).unwrap();
    assert_eq!(memory.segments[0].data, vec![4]);
}

#[test]
fn symbol_table_keeps_last_definition() {
    let mut t = SymbolTable::new();
    let name: Vec<char> = "LOOP".chars().collect();
    t.insert(name.clone(), 5);
    t.insert(name.clone(), 9);
    assert_eq!(t.get(&name, 0, 4), Some(9));
    let other: Vec<char> = "NOPE".chars().collect();
    assert_eq!(t.get(&other, 0, 4), None);
}

#[test]
fn assembling_twice_gives_one_tape() {
    let lines = vec!["ORG &O100", ">START ENTAL DATA1", "JP START", ">DATA1 DATA &O7"];
    let first = assemble(&lines, encoder).unwrap();
    let second = assemble(&lines, encoder).unwrap();
    assert_eq!(first, second);
    assert_eq!(decode(first).segments[0].data, vec![0o220102, 0o300100, 7]);
}
