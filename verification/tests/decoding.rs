use mu_asm::codec::CodeDescriptor;
use mu_asm::errors::ErrorKind;
use mu_asm::isa::scan_encoding;
use mu_asm::isa::InstructionFormat;
use mu_asm::isa::MuAsm;

#[test]
fn construct_then_decode_recovers_every_field() {
    let cd = CodeDescriptor::construct(0xdeadbeef, 3, 7, 31, 0xab, 0x11, 0x9);
    assert_eq!(cd.imm, 0xdeadbeef);
    assert_eq!(cd.rs2, 3);
    assert_eq!(cd.rs1, 7);
    assert_eq!(cd.rd, 31);
    assert_eq!(cd.opcode, 0xab);
    assert_eq!(cd.opcode_group, 0x11);
    assert_eq!(cd.fields, 0x9);
    let again = CodeDescriptor::new(&cd.code);
    assert_eq!(again.imm, cd.imm);
    assert_eq!(again.rs2, cd.rs2);
    assert_eq!(again.rs1, cd.rs1);
    assert_eq!(again.rd, cd.rd);
    assert_eq!(again.opcode, cd.opcode);
    assert_eq!(again.opcode_group, cd.opcode_group);
    assert_eq!(again.fields, cd.fields);
}

#[test]
fn construct_truncates_each_field_to_its_width() {
    let cd = CodeDescriptor::construct(0x1_0000_0001, 0x22, 0x21, 0x3f, 0x1ff, 0x25, 0x19);
    assert_eq!(cd.imm, 1);
    assert_eq!(cd.rs2, 2);
    assert_eq!(cd.rs1, 1);
    assert_eq!(cd.rd, 0x1f);
    assert_eq!(cd.opcode, 0xff);
    assert_eq!(cd.opcode_group, 5);
    assert_eq!(cd.fields, 9);
}

#[test]
fn bit_offsets_are_exact() {
    // SET R0 0x05: mask 9, group 0, opcode 1, rd 0, imm 5
    let cd = CodeDescriptor::construct(5, 0, 0, 0, 1, 0, 9);
    assert_eq!(cd.code, 0x9000_8000_0000_0005);
    assert_eq!(cd.code.to_le_bytes(), [0x05, 0x00, 0x00, 0x00, 0x00, 0x80, 0x00, 0x90]);
}

#[test]
fn disassemble_renders_padded_lowercase_hex() {
    let mu = MuAsm::new();
    let cd = CodeDescriptor::construct(0xAB, 0, 0, 3, 1, 0, 9);
    let line = mu.disassemble_code(&cd.code).unwrap();
    assert_eq!(line, "SET R3 0x000000ab");
}

#[test]
fn disassemble_orders_rd_rs1_rs2() {
    let mu = MuAsm::new();
    let cd = CodeDescriptor::construct(0, 22, 21, 20, 1, 5, 0xe);
    let line = mu.disassemble_code(&cd.code).unwrap();
    assert_eq!(line, "ADD R20 R21 R22");
}

#[test]
fn unknown_encoding_is_reported_with_byte_offset() {
    let mu = MuAsm::new();
    let good = mu.assemble(&vec!["RET".to_string()]).unwrap();
    let mut bytes = good.clone();
    bytes.extend_from_slice(&[0u8; 8]); // mask 0, group 0, opcode 0: no such entry
    let err = mu.disassemble(&bytes).unwrap_err();
    assert_eq!(err.kind, ErrorKind::UnknownEncoding);
    assert_eq!(err.pos, 8);
}

#[test]
fn truncated_stream_is_reported_with_byte_offset() {
    let mu = MuAsm::new();
    let good = mu.assemble(&vec!["RET".to_string()]).unwrap();
    let mut bytes = good.clone();
    bytes.extend_from_slice(&[1, 2, 3]);
    let err = mu.disassemble(&bytes).unwrap_err();
    assert_eq!(err.kind, ErrorKind::TruncatedStream);
    assert_eq!(err.pos, 8);
}

#[test]
fn empty_stream_disassembles_to_nothing() {
    let mu = MuAsm::new();
    let text = mu.disassemble(&Vec::new()).unwrap();
    assert!(text.is_empty());
}

fn entry(mnemonic: &str, field_mask: u8, opcode_group: u8, opcode: u8) -> InstructionFormat {
    InstructionFormat { mnemonic: mnemonic.to_string(), field_mask, opcode_group, opcode }
}

#[test]
fn duplicate_triples_are_caught_as_ambiguous() {
    let table = vec![entry("AAA", 9, 0, 1), entry("BBB", 9, 0, 1)];
    let err = scan_encoding(&table, 9, 0, 1).unwrap_err();
    assert_eq!(err, ErrorKind::AmbiguousEncoding);
}

#[test]
fn scan_encoding_finds_the_unique_match() {
    let table = vec![entry("AAA", 9, 0, 1), entry("BBB", 9, 0, 2)];
    assert_eq!(scan_encoding(&table, 9, 0, 2).unwrap(), "BBB");
    assert_eq!(scan_encoding(&table, 9, 1, 2).unwrap_err(), ErrorKind::UnknownEncoding);
}

#[test]
fn lookup_by_encoding_scans_the_isa_table() {
    let mu = MuAsm::new();
    assert_eq!(mu.lookup_by_encoding(0x0e, 0x05, 0x01).unwrap(), "ADD");
    assert_eq!(mu.lookup_by_encoding(0x00, 0x11, 0x02).unwrap(), "RET");
    assert_eq!(mu.lookup_by_encoding(0x0f, 0x00, 0x00).unwrap_err(), ErrorKind::UnknownEncoding);
}
