//! Unit tests for the numeric utilities, the flag field, the catalogs and
//! the parser.

use sic_xe_assembler::error::AsmError;
use sic_xe_assembler::global_map::{const_eq, Constant, GlobalMap};
use sic_xe_assembler::nixbpe::Nixbpe;
use sic_xe_assembler::parse_utils::{
    get_loc_inc, label_or_address, parse_address, parse_constant, parse_opcode, AddressSpec,
    AddressingModes, Directive, OpcodeFormat, OpcodeSpec,
};
use sic_xe_assembler::utils::{
    bin_string_to_i32, get_nth_char, hex_string_to_i32, i32_to_bin_string, i32_to_hex_string,
    is_valid_decimal_string, split_string, str_eq, string_to_usize, u32_to_hex_string,
};

#[test]
fn hex_rendering_pads_and_uppercases() {
    assert_eq!(i32_to_hex_string(255, 4), "00FF");
    assert_eq!(i32_to_hex_string(0, 0), "0");
    assert_eq!(i32_to_hex_string(0x1A2B, 2), "1A2B");
    assert_eq!(u32_to_hex_string(0xDEADBEEF, 8), "DEADBEEF");
}

#[test]
fn hex_rendering_of_negative_uses_two_complement_bits() {
    assert_eq!(i32_to_hex_string(-5, 0), "FFFFFFFB");
    assert_eq!(i32_to_hex_string(-1, 0), "FFFFFFFF");
}

#[test]
fn bin_rendering_and_parsing_round_trip() {
    assert_eq!(i32_to_bin_string(5, 4), "0101");
    assert_eq!(i32_to_bin_string(0, 6), "000000");
    assert_eq!(bin_string_to_i32("0101"), 5);
    assert_eq!(bin_string_to_i32("110010"), 50);
}

#[test]
fn hex_parsing_accepts_both_cases() {
    assert_eq!(hex_string_to_i32("1F"), 31);
    assert_eq!(hex_string_to_i32("1f"), 31);
    assert_eq!(hex_string_to_i32("7FFFFFFF"), i32::MAX);
}

#[test]
fn decimal_validation_matches_i32_range() {
    assert!(is_valid_decimal_string("123"));
    assert!(is_valid_decimal_string("-123"));
    assert!(is_valid_decimal_string("+5"));
    assert!(is_valid_decimal_string("2147483647"));
    assert!(!is_valid_decimal_string("2147483648"));
    assert!(is_valid_decimal_string("-2147483648"));
    assert!(!is_valid_decimal_string("-2147483649"));
    assert!(!is_valid_decimal_string("12a"));
    assert!(!is_valid_decimal_string(""));
    assert!(!is_valid_decimal_string("-"));
}

#[test]
fn decimal_parsing_reads_unsigned_values() {
    assert_eq!(string_to_usize("042"), 42);
    assert_eq!(string_to_usize("+7"), 7);
    assert_eq!(string_to_usize("0"), 0);
}

#[test]
fn nth_char_counts_from_one() {
    assert_eq!(get_nth_char("abc", 1), Ok('a'));
    assert_eq!(get_nth_char("abc", 3), Ok('c'));
    assert_eq!(get_nth_char("abc", 5), Err(String::from("Out of bounds")));
    assert_eq!(get_nth_char("", 1), Err(String::from("Empty string")));
}

#[test]
fn string_helpers_compare_and_split() {
    assert!(str_eq("LDA", "LDA"));
    assert!(!str_eq("LDA", "LDB"));
    let parts = split_string("A LDA B", ' ');
    assert_eq!(parts, vec!["A", "LDA", "B"]);
    let parts = split_string("A,,B", ',');
    assert_eq!(parts, vec!["A", "", "B"]);
    let parts = split_string("", ' ');
    assert_eq!(parts, vec![""]);
}

#[test]
fn nixbpe_renders_its_six_bits() {
    let mut f = Nixbpe::new();
    assert_eq!(f.as_bin_string(), "000000");
    f.set_direct();
    f.set_pc_relative();
    assert_eq!(f.as_bin_string(), "110010");
    assert_eq!(f.value(), 50);
    let mut g = Nixbpe::new();
    g.set_immediate();
    g.set_extended();
    assert_eq!(g.as_bin_string(), "010001");
    let mut h = Nixbpe::new();
    h.set_indirect();
    h.set_indexed();
    h.set_base_relative();
    assert_eq!(h.as_bin_string(), "101100");
}

#[test]
fn constant_lengths_follow_their_bytes() {
    assert_eq!(Constant::SicString(String::from("EOF")).get_len(), 3);
    assert_eq!(Constant::SicString(String::from("")).get_len(), 0);
    assert_eq!(Constant::Hex(0xF1).get_len(), 1);
    assert_eq!(Constant::Hex(0x5).get_len(), 1);
    assert_eq!(Constant::Hex(0x123).get_len(), 2);
}

#[test]
fn constant_equality_is_by_content() {
    assert!(const_eq(&Constant::Hex(5), &Constant::Hex(5)));
    assert!(!const_eq(&Constant::Hex(5), &Constant::Hex(6)));
    assert!(const_eq(
        &Constant::SicString(String::from("AB")),
        &Constant::SicString(String::from("AB")),
    ));
    assert!(!const_eq(&Constant::SicString(String::from("5")), &Constant::Hex(5)));
}

#[test]
fn opcode_catalog_answers_known_mnemonics() {
    let gm = GlobalMap::init();
    let lda = gm.get_opcode_value("LDA").unwrap();
    assert_eq!(lda.opcode, 0x00);
    assert_eq!(lda.format, OpcodeFormat::Three);
    let clear = gm.get_opcode_value("CLEAR").unwrap();
    assert_eq!(clear.opcode, 0xB4);
    assert_eq!(clear.format, OpcodeFormat::Two);
    let fix = gm.get_opcode_value("FIX").unwrap();
    assert_eq!(fix.opcode, 0xC4);
    assert_eq!(fix.format, OpcodeFormat::One);
    assert!(matches!(
        gm.get_opcode_value("NOPE"),
        Err(AsmError::UnknownMnemonic(ref t)) if t == "NOPE"
    ));
}

#[test]
fn register_catalog_numbers_the_registers() {
    let gm = GlobalMap::init();
    assert_eq!(gm.get_reg_value("A").unwrap(), 0);
    assert_eq!(gm.get_reg_value("X").unwrap(), 1);
    assert_eq!(gm.get_reg_value("SW").unwrap(), 9);
    assert!(matches!(
        gm.get_reg_value("Q"),
        Err(AsmError::UnknownRegister(ref t)) if t == "Q"
    ));
}

#[test]
fn parse_opcode_classifies_directives_and_formats() {
    let gm = GlobalMap::init();
    assert!(matches!(
        parse_opcode(&gm, "START"),
        Ok(OpcodeSpec::Directive(Directive::Start))
    ));
    assert!(matches!(
        parse_opcode(&gm, "LTORG"),
        Ok(OpcodeSpec::Directive(Directive::Ltorg))
    ));
    assert!(matches!(
        parse_opcode(&gm, "LDA"),
        Ok(OpcodeSpec::Opcode(ref m, OpcodeFormat::Three)) if m == "LDA"
    ));
    assert!(matches!(
        parse_opcode(&gm, "+LDA"),
        Ok(OpcodeSpec::Opcode(ref m, OpcodeFormat::Four)) if m == "LDA"
    ));
    assert!(matches!(parse_opcode(&gm, "+CLEAR"), Err(AsmError::InvalidExtended(_))));
    assert!(matches!(parse_opcode(&gm, "NOPE"), Err(AsmError::UnknownMnemonic(_))));
}

#[test]
fn parse_constant_reads_hex_and_text() {
    assert!(matches!(
        parse_constant('X', String::from("F1")),
        Ok(Constant::Hex(0xF1))
    ));
    assert!(matches!(
        parse_constant('C', String::from("EOF")),
        Ok(Constant::SicString(ref s)) if s == "EOF"
    ));
    assert!(matches!(
        parse_constant('X', String::from("GG")),
        Err(AsmError::InvalidLiteral(_))
    ));
    assert!(matches!(
        parse_constant('X', String::from("")),
        Err(AsmError::InvalidLiteral(_))
    ));
    assert!(matches!(
        parse_constant('Q', String::from("F1")),
        Err(AsmError::InvalidLiteral(_))
    ));
}

#[test]
fn operands_classify_into_their_forms() {
    let gm = GlobalMap::init();
    assert!(matches!(
        parse_address(&gm, "2"),
        Ok(AddressSpec::Address(2, AddressingModes::Direct))
    ));
    assert!(matches!(
        parse_address(&gm, "#5"),
        Ok(AddressSpec::Address(5, AddressingModes::Immediate))
    ));
    assert!(matches!(
        parse_address(&gm, "@BUF"),
        Ok(AddressSpec::Label(ref l, AddressingModes::Indirect)) if l == "BUF"
    ));
    assert!(matches!(
        parse_address(&gm, "BUF,X"),
        Ok(AddressSpec::Label(ref l, AddressingModes::Indexed)) if l == "BUF"
    ));
    assert!(matches!(
        parse_address(&gm, "A,X"),
        Ok(AddressSpec::Address(1, AddressingModes::Absent))
    ));
    assert!(matches!(
        parse_address(&gm, "X"),
        Ok(AddressSpec::Address(16, AddressingModes::Direct))
    ));
    assert!(matches!(
        parse_address(&gm, "=X'05'"),
        Ok(AddressSpec::Literal(Constant::Hex(5)))
    ));
    assert!(matches!(
        parse_address(&gm, "=C'AB'"),
        Ok(AddressSpec::Literal(Constant::SicString(ref s))) if s == "AB"
    ));
    assert!(matches!(
        parse_address(&gm, "C'EOF'"),
        Ok(AddressSpec::Constant(Constant::SicString(ref s))) if s == "EOF"
    ));
    assert!(matches!(
        parse_address(&gm, "X'F1'"),
        Ok(AddressSpec::Constant(Constant::Hex(0xF1)))
    ));
    assert!(matches!(parse_address(&gm, "A,Q"), Err(AsmError::UnknownRegister(ref t)) if t == "Q"));
    assert!(matches!(parse_address(&gm, "A,B,C"), Err(AsmError::MalformedOperand(_))));
    assert!(matches!(parse_address(&gm, "=Q'5'"), Err(AsmError::InvalidLiteral(_))));
}

#[test]
fn bare_operands_resolve_to_numbers_registers_or_labels() {
    let gm = GlobalMap::init();
    assert!(matches!(
        label_or_address(&gm, "300", AddressingModes::Direct),
        Ok(AddressSpec::Address(300, AddressingModes::Direct))
    ));
    assert!(matches!(
        label_or_address(&gm, "T", AddressingModes::Direct),
        Ok(AddressSpec::Address(80, AddressingModes::Direct))
    ));
    assert!(matches!(
        label_or_address(&gm, "LOOP", AddressingModes::Immediate),
        Ok(AddressSpec::Label(ref l, AddressingModes::Immediate)) if l == "LOOP"
    ));
    assert!(matches!(
        label_or_address(&gm, "-5", AddressingModes::Direct),
        Err(AsmError::MalformedOperand(_))
    ));
}

#[test]
fn line_sizes_follow_the_table() {
    let word = |v: usize| AddressSpec::Address(v, AddressingModes::Direct);
    assert_eq!(
        get_loc_inc(&OpcodeSpec::Directive(Directive::Start), &word(1000)),
        Ok(0)
    );
    assert_eq!(get_loc_inc(&OpcodeSpec::Directive(Directive::Resw), &word(10)), Ok(30));
    assert_eq!(get_loc_inc(&OpcodeSpec::Directive(Directive::Resb), &word(10)), Ok(10));
    assert_eq!(get_loc_inc(&OpcodeSpec::Directive(Directive::Word), &word(7)), Ok(3));
    assert_eq!(get_loc_inc(&OpcodeSpec::Directive(Directive::End), &word(0)), Ok(0));
    assert_eq!(get_loc_inc(&OpcodeSpec::Directive(Directive::Ltorg), &word(0)), Ok(0));
    assert_eq!(
        get_loc_inc(
            &OpcodeSpec::Directive(Directive::Byte),
            &AddressSpec::Constant(Constant::SicString(String::from("EOF"))),
        ),
        Ok(3)
    );
    assert_eq!(
        get_loc_inc(
            &OpcodeSpec::Directive(Directive::Byte),
            &AddressSpec::Constant(Constant::Hex(0x5)),
        ),
        Ok(1)
    );
    assert_eq!(
        get_loc_inc(&OpcodeSpec::Opcode(String::from("FIX"), OpcodeFormat::One), &word(0)),
        Ok(1)
    );
    assert_eq!(
        get_loc_inc(&OpcodeSpec::Opcode(String::from("CLEAR"), OpcodeFormat::Two), &word(16)),
        Ok(2)
    );
    assert_eq!(
        get_loc_inc(&OpcodeSpec::Opcode(String::from("LDA"), OpcodeFormat::Three), &word(0)),
        Ok(3)
    );
    assert_eq!(
        get_loc_inc(&OpcodeSpec::Opcode(String::from("LDA"), OpcodeFormat::Four), &word(0)),
        Ok(4)
    );
    assert!(matches!(
        get_loc_inc(&OpcodeSpec::Directive(Directive::Resw), &AddressSpec::Constant(Constant::Hex(1))),
        Err(AsmError::InvalidDirectiveOperand)
    ));
    assert!(matches!(
        get_loc_inc(
            &OpcodeSpec::Directive(Directive::Byte),
            &AddressSpec::Address(1, AddressingModes::Direct),
        ),
        Err(AsmError::InvalidDirectiveOperand)
    ));
}
