use univac::tape::{
    deserialize_bin, deserialize_bioctal, join_bioctal, serialize_bin, serialize_bioctal,
    split_bioctal, TapeReader,
};

#[test]
fn split_bioctal_gives_three_frames() {
    assert_eq!(split_bioctal(&0o123456), vec![0o12, 0o34, 0o56]);
    assert_eq!(split_bioctal(&0), vec![0, 0, 0]);
}

#[test]
fn join_bioctal_reads_three_frames() {
    let mut reader = TapeReader::new(vec![0o12, 0o34, 0o56, 0o77]);
    assert_eq!(join_bioctal(&mut reader), 0o123456);
    assert_eq!(reader.len(), 1);
    assert_eq!(reader.next(), Some(0o77));
    assert_eq!(reader.next(), None);
}

#[test]
fn join_undoes_split() {
    for word in [0u32, 1, 0o777777, 0o400000, 0o123456] {
        let mut reader = TapeReader::new(split_bioctal(&word));
        assert_eq!(join_bioctal(&mut reader), word);
    }
}

#[test]
fn tape_reader_peeks_without_consuming() {
    let reader = TapeReader::new(vec![5, 6]);
    assert_eq!(reader.peek(), Some(5));
    assert_eq!(reader.len(), 2);
}

#[test]
fn serialize_bioctal_writes_one_frame_per_line() {
    assert_eq!(serialize_bioctal(&vec![1, 63, 0]), " 1 \n 63 \n 0 \n");
    assert_eq!(serialize_bioctal(&vec![]), "");
}

#[test]
fn deserialize_bioctal_reads_lines() {
    assert_eq!(deserialize_bioctal(" 1 \n\n63\r\n 0"), Some(vec![1, 63, 0]));
    assert_eq!(deserialize_bioctal(""), Some(vec![]));
    assert_eq!(deserialize_bioctal("+7\n"), Some(vec![7]));
}

#[test]
fn deserialize_bioctal_refuses_bad_lines() {
    assert_eq!(deserialize_bioctal("64\n"), None);
    assert_eq!(deserialize_bioctal("x\n"), None);
    assert_eq!(deserialize_bioctal("1\n \n"), None);
    assert_eq!(deserialize_bioctal("-1\n"), None);
}

#[test]
fn bioctal_roundtrip() {
    let tape: Vec<u8> = (0u8..64).collect();
    assert_eq!(deserialize_bioctal(&serialize_bioctal(&tape)), Some(tape));
}

#[test]
fn serialize_bin_keeps_frames() {
    assert_eq!(serialize_bin(&vec![1, 2, 0o77]), vec![1, 2, 0o77]);
}

#[test]
fn deserialize_bin_keeps_low_six_bits() {
    assert_eq!(deserialize_bin(&[0xFF, 0x41, 0o12]), vec![0o77, 1, 0o12]);
}

#[test]
fn bin_roundtrip() {
    let tape: Vec<u8> = vec![0, 1, 0o40, 0o77];
    assert_eq!(deserialize_bin(&serialize_bin(&tape)), tape);
}

use univac::tape::is_bioctal_name;

#[test]
fn bioctal_names_end_in_76() {
    assert!(is_bioctal_name("PI.76"));
    assert!(is_bioctal_name("LECPAC.76+"));
    assert!(!is_bioctal_name("PI.BIN"));
    assert!(!is_bioctal_name("76"));
}
