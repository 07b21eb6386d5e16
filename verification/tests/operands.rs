use mu_asm::errors::ErrorKind;
use mu_asm::isa::register_index;
use mu_asm::isa::register_name;
use mu_asm::isa::MuAsm;
use mu_asm::parser::FieldValueKind;
use mu_asm::parser::InstructionDescriptor;
use mu_asm::symtab::SymbolTable;

#[test]
fn hex_token_is_an_immediate_never_a_register() {
    let inst = InstructionDescriptor::new();
    let table = SymbolTable::new();
    assert_eq!(inst.parse_field("0x1F", &table).unwrap(), FieldValueKind::IMM(31));
}

#[test]
fn classification_precedence_and_shapes() {
    let inst = InstructionDescriptor::new();
    let mut table = SymbolTable::new();
    table.insert("@HERE".to_string(), 24);
    assert_eq!(inst.parse_field("", &table).unwrap(), FieldValueKind::EMPTY);
    assert_eq!(inst.parse_field("@HERE", &table).unwrap(), FieldValueKind::IMM(24));
    assert_eq!(inst.parse_field("@GONE", &table).unwrap_err(), ErrorKind::UnresolvedSymbol);
    assert_eq!(inst.parse_field("0x0", &table).unwrap(), FieldValueKind::IMM(0));
    assert_eq!(inst.parse_field("42", &table).unwrap(), FieldValueKind::IMM(42));
    assert_eq!(inst.parse_field("R7", &table).unwrap(), FieldValueKind::REG(7));
    assert_eq!(inst.parse_field("R31", &table).unwrap(), FieldValueKind::REG(31));
    assert_eq!(inst.parse_field("bogus", &table).unwrap_err(), ErrorKind::UnknownOperand);
}

#[test]
fn symbol_table_overwrites_on_reinsertion() {
    let mut table = SymbolTable::new();
    table.insert("@A".to_string(), 0);
    table.insert("@B".to_string(), 8);
    table.insert("@A".to_string(), 16);
    assert_eq!(table.get("@A"), Some(16));
    assert_eq!(table.get("@B"), Some(8));
    assert_eq!(table.get("@C"), None);
}

#[test]
fn register_tables_are_inverse() {
    for i in 0..32u8 {
        let name = register_name(i).unwrap();
        assert_eq!(register_index(name), Some(i));
    }
    assert_eq!(register_name(32), None);
    assert_eq!(register_index("R32"), None);
    assert_eq!(register_index("r0"), None);
    assert_eq!(register_name(5), Some("R5"));
    assert_eq!(register_name(31), Some("R31"));
}

#[test]
fn parse_instruction_splits_on_arbitrary_blanks() {
    let mu = MuAsm::new();
    let inst = mu.parse_instruction("ADD\tR1  R0   R2");
    assert_eq!(inst.mnemonic, "ADD");
    assert_eq!(inst.field1, "R1");
    assert_eq!(inst.field2, "R0");
    assert_eq!(inst.field3, "R2");
    assert_eq!(inst.text, "ADD\tR1  R0   R2");
}

#[test]
fn parse_instruction_leaves_absent_operands_empty() {
    let mu = MuAsm::new();
    let inst = mu.parse_instruction("RET");
    assert_eq!(inst.mnemonic, "RET");
    assert_eq!(inst.field1, "");
    assert_eq!(inst.field2, "");
    assert_eq!(inst.field3, "");
}

#[test]
fn parse_code_yields_the_blank_descriptor() {
    let mu = MuAsm::new();
    let inst = mu.parse_code(&0x1234u64);
    assert_eq!(inst.mnemonic, "");
    assert_eq!(inst.address, 0);
}

#[test]
fn lookup_by_mnemonic_finds_definitions() {
    let mu = MuAsm::new();
    let fmt = mu.lookup_by_mnemonic("SET").unwrap();
    assert_eq!(fmt.field_mask, 0x09);
    assert_eq!(fmt.opcode_group, 0x00);
    assert_eq!(fmt.opcode, 0x01);
    assert!(mu.lookup_by_mnemonic("NOPE").is_none());
}

#[test]
fn assemble_instruction_resolves_symbols() {
    let mu = MuAsm::new();
    let mut table = SymbolTable::new();
    table.insert("@LOOP".to_string(), 8);
    let inst = mu.parse_instruction("J @LOOP");
    let w = mu.assemble_instruction(&inst, &table).unwrap();
    assert_eq!(w & 0xffffffff, 8);
}
