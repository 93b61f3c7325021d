//! End-to-end tests of the two passes over whole programs.

use sic_xe_assembler::driver::{assemble, parse_line, pass_one, pass_two};
use sic_xe_assembler::encoder::get_object_code;
use sic_xe_assembler::error::AsmError;
use sic_xe_assembler::global_map::Constant;
use sic_xe_assembler::parse_utils::{AddressSpec, AddressingModes, Directive, OpcodeSpec};

fn program(lines: &[&str]) -> Vec<String> {
    lines.iter().map(|l| l.to_string()).collect()
}

fn codes(lines: &[&str]) -> Vec<Option<String>> {
    assemble(&program(lines)).unwrap()
}

#[test]
fn minimal_program_encodes_a_direct_address() {
    // A plain integer operand is held in the displacement field as it
    // stands, with no relative addressing (so RSUB below stays encodable).
    let out = codes(&["FIRST START 1000", " LDA 2", " END FIRST"]);
    assert_eq!(out, vec![None, Some(String::from("030002")), None]);
}

#[test]
fn rsub_encodes_with_empty_operand() {
    let out = codes(&["FIRST START 1000", " RSUB", " END FIRST"]);
    assert_eq!(out[1], Some(String::from("4F0000")));
}

#[test]
fn register_clear_packs_the_register_high() {
    let out = codes(&["TEST START 100", " CLEAR X", " END TEST"]);
    assert_eq!(out[1], Some(String::from("B410")));
}

#[test]
fn register_pair_packs_both_nibbles() {
    let out = codes(&["TEST START 100", " ADDR A,X", " TIXR T", " END TEST"]);
    assert_eq!(out[1], Some(String::from("9001")));
    assert_eq!(out[2], Some(String::from("B850")));
}

#[test]
fn extended_immediate_holds_the_absolute_value() {
    let out = codes(&["TEST START 100", " +LDA #5", " END TEST"]);
    assert_eq!(out[1], Some(String::from("01100005")));
}

#[test]
fn byte_text_constant_emits_its_characters() {
    let out = codes(&["TEST START 100", "LBL BYTE C'EOF'", " END TEST"]);
    assert_eq!(out[1], Some(String::from("454F46")));
    let p1 = pass_one(&program(&["TEST START 100", "LBL BYTE C'EOF'", " END TEST"])).unwrap();
    assert_eq!(p1.locs, vec![100, 100, 103]);
}

#[test]
fn byte_hex_constant_pads_to_whole_bytes() {
    let out = codes(&["TEST START 100", "A BYTE X'F1'", "B BYTE X'5'", " END TEST"]);
    assert_eq!(out[1], Some(String::from("F1")));
    assert_eq!(out[2], Some(String::from("05")));
    let p1 = pass_one(&program(&[
        "TEST START 100",
        "A BYTE X'F1'",
        "B BYTE X'5'",
        " END TEST",
    ]))
    .unwrap();
    assert_eq!(p1.locs, vec![100, 100, 101, 102]);
}

#[test]
fn word_emits_six_digits() {
    let out = codes(&["TEST START 100", "TARG WORD 300", " END TEST"]);
    assert_eq!(out[1], Some(String::from("00012C")));
}

#[test]
fn pc_relative_label_reference_is_exact() {
    // LDA sits at 1000, so PC-relative displacement to TARG at 1003 is 0.
    let out = codes(&["FIRST START 1000", " LDA TARG", "TARG WORD 300", " END FIRST"]);
    assert_eq!(out[1], Some(String::from("032000")));
}

#[test]
fn negative_pc_relative_displacement_wraps_mod_4096() {
    // The jump back to LOOP at 1000 is taken from pc 1006: -6 mod 4096.
    let out = codes(&["FIRST START 1000", "LOOP LDA TARG", " J LOOP", "TARG WORD 1", " END FIRST"]);
    assert_eq!(out[2], Some(String::from("3F2FFA")));
}

#[test]
fn base_relative_fallback_when_pc_window_misses() {
    let out = codes(&[
        "FIRST START 0",
        " BASE FIRST",
        " LDA FAR",
        " RESB 3000",
        "FAR WORD 7",
        " END FIRST",
    ]);
    assert_eq!(out[2], Some(String::from("034BBB")));
}

#[test]
fn out_of_both_windows_is_a_displacement_error() {
    let r = assemble(&program(&[
        "FIRST START 0",
        " LDA FAR",
        " RESB 5000",
        "FAR WORD 7",
        " END FIRST",
    ]));
    assert!(matches!(r, Err(AsmError::DisplacementOutOfRange)));
}

#[test]
fn extended_label_reference_holds_the_absolute_address() {
    let out = codes(&["FIRST START 1000", " +LDA TARG", "TARG WORD 1", " END FIRST"]);
    assert_eq!(out[1], Some(String::from("031003EC")));
}

#[test]
fn indexed_immediate_and_indirect_modes_set_their_bits() {
    let out = codes(&[
        "FIRST START 1000",
        " STCH BUF,X",
        " LDB #TARG",
        " J @TARG",
        "BUF RESB 1",
        "TARG WORD 1",
        " END FIRST",
    ]);
    // STCH at 1000: target BUF=1009, pc 1003, disp 6, n=i=x=1, p=1.
    assert_eq!(out[1], Some(String::from("57A006")));
    // LDB immediate at 1003: target TARG=1010, pc 1006, disp 4.
    assert_eq!(out[2], Some(String::from("692004")));
    // J indirect at 1006: target 1010, pc 1009, disp 1.
    assert_eq!(out[3], Some(String::from("3E2001")));
}

#[test]
fn literal_pool_places_one_copy_at_ltorg() {
    let lines = program(&[
        "FIRST START 1000",
        " LDA =X'05'",
        " LTORG",
        " LDA =X'05'",
        " END FIRST",
    ]);
    let p1 = pass_one(&lines).unwrap();
    // One placement for both uses, at the LTORG location 1003.
    assert_eq!(p1.ctx.get_literal(&Constant::Hex(5)), Some(1003));
    assert_eq!(p1.ctx.literal_map.len(), 1);
    assert_eq!(p1.locs, vec![1000, 1000, 1004, 1004, 1007]);
    let out = pass_two(&p1.ctx, &p1.lines, &p1.locs).unwrap();
    // First use: pc 1003, target 1003, displacement 0.
    assert_eq!(out[1], Some(String::from("032000")));
    // Second use: pc 1007, target 1003, displacement -4 mod 4096.
    assert_eq!(out[3], Some(String::from("032FFC")));
}

#[test]
fn literals_without_ltorg_are_placed_at_program_end() {
    let lines = program(&["FIRST START 1000", " LDA =C'AB'", " END FIRST"]);
    let p1 = pass_one(&lines).unwrap();
    // Placed after the last line: 1000 + 3 bytes of LDA.
    assert_eq!(
        p1.ctx.get_literal(&Constant::SicString(String::from("AB"))),
        Some(1003)
    );
    assert!(p1.ctx.literal_pool.is_empty());
}

#[test]
fn label_addresses_are_recorded_in_order() {
    let lines = program(&[
        "FIRST START 1000",
        "A LDA 2",
        "B RESW 2",
        "C WORD 1",
        " END FIRST",
    ]);
    let p1 = pass_one(&lines).unwrap();
    let named: Vec<(String, usize)> = p1.ctx.label_map.clone();
    assert_eq!(named.len(), 4);
    assert_eq!(named[0], (String::from("FIRST"), 1000));
    assert_eq!(named[1], (String::from("A"), 1000));
    assert_eq!(named[2], (String::from("B"), 1003));
    assert_eq!(named[3], (String::from("C"), 1009));
    // Addresses are non-decreasing in definition order.
    for w in named.windows(2) {
        assert!(w[0].1 <= w[1].1);
    }
}

#[test]
fn equ_takes_no_space_and_emits_nothing() {
    let lines = program(&["TEST START 100", "LBL EQU 5", " LDA 2", " END TEST"]);
    let p1 = pass_one(&lines).unwrap();
    // EQU occupies no storage: the label lands on the current location and
    // the following instruction starts there too.
    assert_eq!(p1.locs, vec![100, 100, 100, 103]);
    assert_eq!(p1.ctx.label_map[1], (String::from("LBL"), 100));
    let out = pass_two(&p1.ctx, &p1.lines, &p1.locs).unwrap();
    assert_eq!(out[1], None);
}

#[test]
fn duplicate_labels_are_refused() {
    let r = pass_one(&program(&[
        "FIRST START 1000",
        "A LDA 2",
        "A WORD 1",
        " END FIRST",
    ]));
    assert!(matches!(r, Err(AsmError::DuplicateLabel(ref t)) if t == "A"));
}

#[test]
fn constants_bound_to_labels_land_in_the_constant_map() {
    let p1 = pass_one(&program(&["TEST START 100", "LBL BYTE C'EOF'", " END TEST"])).unwrap();
    assert_eq!(p1.ctx.constant_map.len(), 1);
    assert_eq!(p1.ctx.constant_map[0].0, "LBL");
    assert!(matches!(
        p1.ctx.constant_map[0].1,
        Constant::SicString(ref s) if s == "EOF"
    ));
}

#[test]
fn emitted_length_is_twice_the_line_size() {
    let lines = program(&[
        "FIRST START 1000",
        " FIX",
        " CLEAR X",
        " LDA 2",
        " +LDA #5",
        "W WORD 300",
        "B BYTE C'EOF'",
        "H BYTE X'5'",
        " END FIRST",
    ]);
    let p1 = pass_one(&lines).unwrap();
    let out = pass_two(&p1.ctx, &p1.lines, &p1.locs).unwrap();
    let sizes = [0usize, 1, 2, 3, 4, 3, 3, 1, 0];
    for (i, rec) in out.iter().enumerate() {
        match rec {
            Some(code) => assert_eq!(code.len(), 2 * sizes[i]),
            None => assert_eq!(sizes[i], 0),
        }
    }
}

#[test]
fn base_register_opens_the_window_above_a_label() {
    let out = codes(&[
        "FIRST START 0",
        " BASE MID",
        " LDA FAR",
        " RESB 3000",
        "MID RESB 2000",
        "FAR WORD 7",
        " END FIRST",
    ]);
    // FAR at 5003 sits 2000 bytes above MID at 3003.
    assert_eq!(out[2], Some(String::from("0347D0")));
}

#[test]
fn nobase_clears_the_base_register() {
    // With the base cleared back to zero, FAR at 5003 fits neither window.
    let r = assemble(&program(&[
        "FIRST START 0",
        " BASE MID",
        " NOBASE",
        " LDA FAR",
        " RESB 3000",
        "MID RESB 2000",
        "FAR WORD 7",
        " END FIRST",
    ]));
    assert!(matches!(r, Err(AsmError::DisplacementOutOfRange)));
}

#[test]
fn base_can_be_a_plain_address() {
    let out = codes(&[
        "FIRST START 0",
        " BASE 0",
        " LDA FAR",
        " RESB 3000",
        "FAR WORD 7",
        " END FIRST",
    ]);
    assert_eq!(out[2], Some(String::from("034BBB")));
}

#[test]
fn missing_start_is_refused() {
    assert!(matches!(assemble(&program(&[])), Err(AsmError::MissingStart)));
    assert!(matches!(
        assemble(&program(&[" LDA 2", " END X"])),
        Err(AsmError::MissingStart)
    ));
}

#[test]
fn start_needs_an_integer_address() {
    assert!(matches!(
        assemble(&program(&["FIRST START HERE", " END FIRST"])),
        Err(AsmError::InvalidStartAddress)
    ));
}

#[test]
fn unknown_mnemonic_is_refused() {
    assert!(matches!(
        assemble(&program(&["FIRST START 0", " NOPE 5", " END FIRST"])),
        Err(AsmError::UnknownMnemonic(ref t)) if t == "NOPE"
    ));
}

#[test]
fn unknown_label_is_refused_in_pass_two() {
    assert!(matches!(
        assemble(&program(&["FIRST START 0", " LDA NOPE", " END FIRST"])),
        Err(AsmError::UnknownLabel(ref t)) if t == "NOPE"
    ));
}

#[test]
fn malformed_literal_is_refused() {
    assert!(matches!(
        assemble(&program(&["FIRST START 0", " BYTE X'GG'", " END FIRST"])),
        Err(AsmError::InvalidLiteral(_))
    ));
}

#[test]
fn reservation_needs_an_integer() {
    assert!(matches!(
        assemble(&program(&["FIRST START 0", " RESW C'A'", " END FIRST"])),
        Err(AsmError::InvalidDirectiveOperand)
    ));
}

#[test]
fn base_needs_a_label_or_address() {
    assert!(matches!(
        assemble(&program(&["FIRST START 0", " BASE =X'05'", " END FIRST"])),
        Err(AsmError::InvalidBaseOperand)
    ));
}

#[test]
fn program_leaving_the_address_space_is_refused() {
    assert!(matches!(
        assemble(&program(&["FIRST START 1048570", " RESB 100", " END FIRST"])),
        Err(AsmError::ProgramTooLarge)
    ));
}

#[test]
fn two_token_lines_lean_on_the_mnemonic_test() {
    let gm = sic_xe_assembler::global_map::GlobalMap::init();
    // "END FIRST": END is a known mnemonic, so no label.
    let (label, op, ad) = parse_line(&gm, "END FIRST").unwrap();
    assert_eq!(label, "");
    assert!(matches!(op, OpcodeSpec::Directive(Directive::End)));
    assert!(matches!(ad, AddressSpec::Label(ref l, AddressingModes::Direct) if l == "FIRST"));
    // "HERE RSUB": HERE is no mnemonic, so it is a label.
    let (label, op, ad) = parse_line(&gm, "HERE RSUB").unwrap();
    assert_eq!(label, "HERE");
    assert!(matches!(op, OpcodeSpec::Opcode(ref m, _) if m == "RSUB"));
    assert!(matches!(ad, AddressSpec::Address(0, AddressingModes::Absent)));
    // A lone mnemonic.
    let (label, _, ad) = parse_line(&gm, "RSUB").unwrap();
    assert_eq!(label, "");
    assert!(matches!(ad, AddressSpec::Address(0, AddressingModes::Absent)));
    // No mnemonic at all.
    assert!(matches!(parse_line(&gm, ""), Err(AsmError::MissingOpcode)));
}

#[test]
fn encoder_threads_base_and_location() {
    let lines = program(&["FIRST START 1000", " LDA 2", " END FIRST"]);
    let p1 = pass_one(&lines).unwrap();
    let (code, base2, pc2) = get_object_code(0, 1000, &p1.ctx, &p1.lines[1]).unwrap();
    assert_eq!(code, Some(String::from("030002")));
    assert_eq!(base2, 0);
    assert_eq!(pc2, 1003);
    let (code, base2, _) = get_object_code(7, 1000, &p1.ctx, &p1.lines[0]).unwrap();
    assert_eq!(code, None);
    assert_eq!(base2, 7);
}
