use mu_asm::errors::ErrorKind;
use mu_asm::errors::OperandClass;
use mu_asm::isa::MuAsm;

fn lines(src: &[&str]) -> Vec<String> {
    src.iter().map(|s| s.to_string()).collect()
}

#[test]
fn assembles_set_and_add() {
    let mu = MuAsm::new();
    let out = mu.assemble(&lines(&["SET R0 0x05", "ADD R1 R0 R0"])).unwrap();
    assert_eq!(
        out,
        vec![
            0x05, 0x00, 0x00, 0x00, 0x00, 0x80, 0x00, 0x90, // SET R0 0x05
            0x00, 0x00, 0x00, 0x00, 0x00, 0x84, 0x80, 0xe2, // ADD R1 R0 R0
        ]
    );
}

#[test]
fn set_and_add_round_trip_to_canonical_text() {
    let mu = MuAsm::new();
    let out = mu.assemble(&lines(&["SET R0 0x05", "ADD R1 R0 R0"])).unwrap();
    let text = mu.disassemble(&out).unwrap();
    assert_eq!(text, vec!["SET R0 0x00000005".to_string(), "ADD R1 R0 R0".to_string()]);
}

#[test]
fn label_at_start_encodes_address_zero() {
    let mu = MuAsm::new();
    let out = mu.assemble(&lines(&["@LOOP", "J @LOOP"])).unwrap();
    assert_eq!(out.len(), 8);
    // imm is the low 32 bits; the label points at address 0
    assert_eq!(&out[0..4], &[0, 0, 0, 0]);
}

#[test]
fn forward_and_backward_references_agree() {
    let mu = MuAsm::new();
    let fwd = mu.assemble(&lines(&["J @END", "ADD R1 R0 R0", "@END", "J @END"])).unwrap();
    let bwd = mu.assemble(&lines(&["J @END", "ADD R1 R0 R0", "", "@END", ";x", "J @END"])).unwrap();
    assert_eq!(fwd, bwd);
    // @END names the address after two instructions: 16
    assert_eq!(&fwd[0..4], &[16, 0, 0, 0]);
    assert_eq!(&fwd[16..20], &[16, 0, 0, 0]);
}

#[test]
fn later_label_definition_wins() {
    let mu = MuAsm::new();
    let out = mu.assemble(&lines(&["@L", "SET R0 1", "@L", "J @L"])).unwrap();
    // the second definition of @L, after one instruction, is address 8
    assert_eq!(&out[8..12], &[8, 0, 0, 0]);
}

#[test]
fn comments_and_blank_lines_are_skipped() {
    let mu = MuAsm::new();
    let a = mu.assemble(&lines(&["SET R0 5"])).unwrap();
    let b = mu
        .assemble(&lines(&["; a comment", "", "   ", "  SET R0 5  ; trailing", ""]))
        .unwrap();
    assert_eq!(a, b);
}

#[test]
fn decimal_and_hex_literals_agree() {
    let mu = MuAsm::new();
    let a = mu.assemble(&lines(&["SET R0 31"])).unwrap();
    let b = mu.assemble(&lines(&["SET R0 0x1F"])).unwrap();
    assert_eq!(a, b);
}

#[test]
fn missing_rs2_is_an_operand_kind_mismatch() {
    let mu = MuAsm::new();
    let err = mu.assemble(&lines(&["ADD R0 R1"])).unwrap_err();
    assert_eq!(
        err.kind,
        ErrorKind::OperandKindMismatch {
            slot: 3,
            expected: OperandClass::Register,
            actual: OperandClass::Empty,
        }
    );
    assert_eq!(err.pos, 1);
}

#[test]
fn extra_operand_is_an_operand_kind_mismatch() {
    let mu = MuAsm::new();
    let err = mu.assemble(&lines(&["RET R0"])).unwrap_err();
    assert_eq!(
        err.kind,
        ErrorKind::OperandKindMismatch {
            slot: 1,
            expected: OperandClass::Empty,
            actual: OperandClass::Register,
        }
    );
}

#[test]
fn unknown_mnemonic_is_reported_with_its_line() {
    let mu = MuAsm::new();
    let err = mu.assemble(&lines(&["SET R0 1", "FOO R0"])).unwrap_err();
    assert_eq!(err.kind, ErrorKind::UnknownMnemonic);
    assert_eq!(err.pos, 2);
}

#[test]
fn unresolved_symbol_is_reported() {
    let mu = MuAsm::new();
    let err = mu.assemble(&lines(&["J @NOWHERE"])).unwrap_err();
    assert_eq!(err.kind, ErrorKind::UnresolvedSymbol);
}

#[test]
fn malformed_hex_literal_is_reported() {
    let mu = MuAsm::new();
    let err = mu.assemble(&lines(&["SET R0 0xzz"])).unwrap_err();
    assert_eq!(err.kind, ErrorKind::MalformedLiteral);
    let err = mu.assemble(&lines(&["SET R0 0x"])).unwrap_err();
    assert_eq!(err.kind, ErrorKind::MalformedLiteral);
}

#[test]
fn out_of_range_literals_are_reported() {
    let mu = MuAsm::new();
    let err = mu.assemble(&lines(&["SET R0 0x1ffffffff"])).unwrap_err();
    assert_eq!(err.kind, ErrorKind::LiteralOutOfRange);
    let err = mu.assemble(&lines(&["SET R0 5000000000"])).unwrap_err();
    assert_eq!(err.kind, ErrorKind::LiteralOutOfRange);
    // the largest 32-bit value is still accepted
    let out = mu.assemble(&lines(&["SET R0 0xffffffff"])).unwrap();
    assert_eq!(&out[0..4], &[0xff, 0xff, 0xff, 0xff]);
}

#[test]
fn unknown_operand_is_reported() {
    let mu = MuAsm::new();
    let err = mu.assemble(&lines(&["SET RX 5"])).unwrap_err();
    assert_eq!(err.kind, ErrorKind::UnknownOperand);
}

#[test]
fn every_mnemonic_assembles_and_round_trips() {
    let mu = MuAsm::new();
    let src = lines(&[
        "SET R0 0x01",
        "SETH R1 0x02",
        "MOV R2 R3",
        "LD1 R4 R5",
        "LD2 R6 R7",
        "LD4 R8 R9",
        "LD8 R10 R11",
        "ST1 R12 R13",
        "ST2 R14 R15",
        "ST4 R16 R17",
        "ST8 R18 R19",
        "ADD R20 R21 R22",
        "SUB R23 R24 R25",
        "MUL R26 R27 R28",
        "DIV R29 R30 R31",
        "GEQ R0 R1",
        "GRE R2 R3",
        "EQU R4 R5",
        "LEQ R6 R7",
        "LES R8 R9",
        "J 0x10",
        "CJ R11",
        "CALL R12",
        "RET",
    ]);
    let out = mu.assemble(&src).unwrap();
    assert_eq!(out.len(), 24 * 8);
    let text = mu.disassemble(&out).unwrap();
    let out2 = mu.assemble(&text).unwrap();
    assert_eq!(out, out2);
}
