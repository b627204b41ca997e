use interprust::assembler::{assemble, assemble_words, AsmErrorKind};
use interprust::binary::{decode_words, encode_words};

fn words(src: &str) -> Vec<u32> {
    assemble_words(src.as_bytes()).expect("source should assemble")
}

fn error_of(src: &str) -> (AsmErrorKind, usize, Vec<u8>) {
    let e = assemble_words(src.as_bytes()).expect_err("source should be rejected");
    (e.kind, e.line, e.token)
}

#[test]
fn labelled_program_words() {
    assert_eq!(words("a: SET 3\n ADD 4\n PRINT\n HALT"), vec![0x07, 3, 0x01, 4, 0x03, 0x0A]);
}

#[test]
fn every_mnemonic_encodes() {
    let src = "ADD 1\nSUB 2\nPRINT\nJMP 3\nPUSH\nPOP\nSET 4\nCALL 5\nRET\nHALT";
    assert_eq!(
        words(src),
        vec![0x01, 1, 0x02, 2, 0x03, 0x04, 3, 0x05, 0x06, 0x07, 4, 0x08, 5, 0x09, 0x0A]
    );
}

#[test]
fn forward_and_backward_references_resolve_alike() {
    let labelled = words("JMP loop\nloop: SET 1\nJMP loop");
    let literal = words("JMP 2\nSET 1\nJMP 2");
    assert_eq!(labelled, vec![0x04, 2, 0x07, 1, 0x04, 2]);
    assert_eq!(labelled, literal);
    assert_eq!(
        assemble("JMP end\nend: HALT").unwrap(),
        assemble("JMP 2\nHALT").unwrap()
    );
}

#[test]
fn call_program_resolves_forward_label() {
    assert_eq!(words("CALL sub\nHALT\nsub: SET 5\nRET"), vec![0x08, 3, 0x0A, 0x07, 5, 0x09]);
}

#[test]
fn label_on_its_own_line_takes_next_address() {
    assert_eq!(words("SET 1\nhere:\nJMP here"), vec![0x07, 1, 0x04, 2]);
}

#[test]
fn blank_and_comment_lines_are_ignored() {
    assert_eq!(words("# start\n\n  SET 7 \r\n\tPRINT\n#end\nHALT\n"), vec![0x07, 7, 0x03, 0x0A]);
}

#[test]
fn unknown_mnemonic_names_line_and_token() {
    let e = assemble("SET 1\nFOO 2\nHALT").expect_err("FOO is no instruction");
    assert_eq!(e.kind, AsmErrorKind::UnknownMnemonic);
    assert_eq!(e.line, 2);
    assert_eq!(e.token, b"FOO".to_vec());
    assert_eq!(e.text, b"FOO 2".to_vec());
}

#[test]
fn mnemonics_are_case_sensitive() {
    assert_eq!(error_of("set 1"), (AsmErrorKind::UnknownMnemonic, 1, b"set".to_vec()));
}

#[test]
fn missing_operand_is_reported() {
    assert_eq!(error_of("PRINT\nADD"), (AsmErrorKind::MissingOperand, 2, b"ADD".to_vec()));
}

#[test]
fn extra_token_is_reported() {
    assert_eq!(error_of("PRINT 3"), (AsmErrorKind::UnexpectedToken, 1, b"3".to_vec()));
    assert_eq!(error_of("SET 3 4"), (AsmErrorKind::UnexpectedToken, 1, b"4".to_vec()));
}

#[test]
fn duplicate_label_is_reported() {
    assert_eq!(
        error_of("x: PRINT\nHALT\nx: HALT"),
        (AsmErrorKind::DuplicateLabel, 3, b"x".to_vec())
    );
}

#[test]
fn unresolved_label_is_reported() {
    assert_eq!(error_of("JMP nowhere"), (AsmErrorKind::UnresolvedLabel, 1, b"nowhere".to_vec()));
}

#[test]
fn malformed_literals_are_reported() {
    assert_eq!(error_of("SET 12x"), (AsmErrorKind::MalformedLiteral, 1, b"12x".to_vec()));
    assert_eq!(
        error_of("SET 4294967296"),
        (AsmErrorKind::MalformedLiteral, 1, b"4294967296".to_vec())
    );
    assert_eq!(words("SET 4294967295"), vec![0x07, u32::MAX]);
}

#[test]
fn first_pass_errors_come_first() {
    // The unresolved label is on line 1, the unknown mnemonic on line 2.
    assert_eq!(error_of("JMP nowhere\nBAD"), (AsmErrorKind::UnknownMnemonic, 2, b"BAD".to_vec()));
}

#[test]
fn assembled_bytes_are_little_endian_words() {
    let bytes = assemble("SET 258\nHALT").unwrap();
    assert_eq!(bytes, vec![7, 0, 0, 0, 2, 1, 0, 0, 10, 0, 0, 0]);
    assert_eq!(decode_words(&bytes), vec![0x07, 258, 0x0A]);
}

#[test]
fn encode_then_decode_round_trips() {
    let ws = vec![0u32, 1, 0x0102_0304, u32::MAX];
    let bytes = encode_words(&ws);
    assert_eq!(bytes.len(), 16);
    assert_eq!(&bytes[8..12], &[4, 3, 2, 1]);
    assert_eq!(decode_words(&bytes), ws);
}

#[test]
fn empty_source_assembles_to_nothing() {
    assert_eq!(words(""), Vec::<u32>::new());
}

#[test]
fn digit_led_label_resolves() {
    assert_eq!(words("1a: HALT\nJMP 1a"), vec![0x0A, 0x04, 0]);
    assert_eq!(words("JMP 2x\nSET 1\n2x: HALT"), vec![0x04, 4, 0x07, 1, 0x0A]);
}

#[test]
fn negative_operand_is_malformed_literal() {
    assert_eq!(error_of("SET -5"), (AsmErrorKind::MalformedLiteral, 1, b"-5".to_vec()));
}

#[test]
fn backward_and_forward_programs_give_identical_binaries() {
    let forward = assemble("JMP start\nstart: SET 5\nPRINT\nHALT").unwrap();
    let literal = assemble("JMP 2\nSET 5\nPRINT\nHALT").unwrap();
    assert_eq!(forward, literal);
    let back = assemble("top: SET 1\nJMP top").unwrap();
    assert_eq!(back, assemble("SET 1\nJMP 0").unwrap());
}
