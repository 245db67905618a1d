use univac::disassembler::{
    insert_sorted, jump_form, position, reference, references, str_of_word, string_at, target,
    targets_of, union_sorted, JumpForm, Reference,
};
use univac::instruction::Instruction;
use univac::memory::{Layout, LayoutSegment};

#[test]
fn str_of_word_shows_printable_words() {
    assert_eq!(str_of_word(65), Some(String::from("A")));
    assert_eq!(str_of_word(32), Some(String::from(" ")));
    assert_eq!(str_of_word(10), Some(String::from("\n")));
    assert_eq!(str_of_word(13), Some(String::from("\\r")));
    assert_eq!(str_of_word(127), None);
    assert_eq!(str_of_word(0), None);
    assert_eq!(str_of_word(0o400101), None);
}

#[test]
fn string_at_runs_over_marked_words() {
    // "HI" with bit 8 set on the last character
    let words = vec![72, 73 | 0o400, 0, 65];
    assert_eq!(string_at(&words, 0), Some((String::from("HI"), 2)));
    assert_eq!(string_at(&words, 2), None);
    assert_eq!(string_at(&words, 3), Some((String::from("A"), 1)));
}

#[test]
fn reference_classifies_instructions() {
    assert_eq!(reference(Instruction::JP { y: 5 }), Some((Reference::Jump, 5)));
    assert_eq!(reference(Instruction::JPALNG { y: 6 }), Some((Reference::Jump, 6)));
    assert_eq!(reference(Instruction::RJP { y: 7 }), Some((Reference::ReturnJump, 7)));
    assert_eq!(reference(Instruction::IJP { y: 8 }), Some((Reference::Return, 8)));
    assert_eq!(reference(Instruction::ENTBK { u: 9 }), Some((Reference::Data, 9)));
    assert_eq!(reference(Instruction::STRALB { y: 10 }), Some((Reference::Array, 10)));
    assert_eq!(reference(Instruction::RND), None);
    assert_eq!(reference(Instruction::JPB { y: 1 }), None);
}

#[test]
fn target_stays_in_bank() {
    assert_eq!(target(0o123456, 0o7), 0o120007);
    assert_eq!(target(0o77, 0o7777), 0o7777);
}

#[test]
fn sorted_sets_insert_and_union() {
    let mut a = vec![];
    insert_sorted(&mut a, 5);
    insert_sorted(&mut a, 1);
    insert_sorted(&mut a, 5);
    insert_sorted(&mut a, 3);
    assert_eq!(a, vec![1, 3, 5]);
    let b = vec![2, 3, 9];
    assert_eq!(union_sorted(&a, &b), vec![1, 2, 3, 5, 9]);
    assert_eq!(position(&a, 3), Some(1));
    assert_eq!(position(&a, 4), None);
}

#[test]
fn references_collect_targets_by_kind() {
    let layout = Layout {
        segments: vec![LayoutSegment { start_addr: 0o10000, data: vec![0, 0, 0, 0] }],
        start_address: 0,
    };
    let decoded = vec![vec![
        Some(Instruction::JP { y: 3 }),
        None,
        Some(Instruction::RJP { y: 0o100 }),
        Some(Instruction::JP { y: 3 }),
    ]];
    let refs = references(&layout, &decoded);
    assert_eq!(
        refs,
        vec![
            (Reference::Jump, 0o10003),
            (Reference::ReturnJump, 0o10100),
            (Reference::Jump, 0o10003)
        ]
    );
    assert_eq!(targets_of(&refs, Reference::Jump), vec![0o10003]);
    assert_eq!(targets_of(&refs, Reference::ReturnJump), vec![0o10100]);
    assert_eq!(targets_of(&refs, Reference::Data), Vec::<u32>::new());
}

#[test]
fn jump_form_uses_lok_for_near_targets() {
    assert_eq!(jump_form(20, 15), JumpForm::Back { distance: 5 });
    assert_eq!(jump_form(20, 29), JumpForm::Forward { distance: 9 });
    assert_eq!(jump_form(20, 30), JumpForm::Absolute { target: 30 });
    assert_eq!(jump_form(20, 20), JumpForm::Absolute { target: 20 });
}
