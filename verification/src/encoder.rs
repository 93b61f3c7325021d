//! The pass-two encoder: for one parsed line and the addresses pass one
//! resolved, the emitted object code and the updated base and location
//! state.

use vstd::prelude::*;

use crate::error::{AsmError, AsmErrorV};
use crate::global_map::{
    find_label, find_literal, global_map_wf, lemma_find_label_bound, lemma_find_literal_bound,
    spec_opcode_detail, ConstantV, GlobalMap,
};
use crate::nixbpe::Nixbpe;
use crate::parse_utils::{
    address_spec_wf, spec_loc_inc, AddressSpec, AddressSpecV, AddressingModes, ASMLine, Directive,
    OpcodeFormat, OpcodeSpec, OpcodeSpecV,
};
use crate::utils::{hex_repr, hex_string, u32_to_hex_string};

verus! {

/// The flag field for an addressing mode, with the given relative and
/// extended bits.
pub open spec fn spec_mode_nixbpe(m: AddressingModes, b: bool, p: bool, e: bool) -> Nixbpe {
    match m {
        AddressingModes::Immediate => Nixbpe { n: false, i: true, x: false, b, p, e },
        AddressingModes::Indirect => Nixbpe { n: true, i: false, x: false, b, p, e },
        AddressingModes::Indexed => Nixbpe { n: true, i: true, x: true, b, p, e },
        _ => Nixbpe { n: true, i: true, x: false, b, p, e },
    }
}

/// Two upper-case hexadecimal digits for each character of `s`.
pub open spec fn bytes_hex(s: Seq<char>) -> Seq<char>
    decreases s.len(),
{
    if s.len() == 0 {
        Seq::empty()
    } else {
        bytes_hex(s.drop_last()) + hex_string(s.last() as u32 as nat, 2)
    }
}

/// The object code of a constant: two digits per character of a `C'..'`
/// form; the digits of an `X'..'` value, zero-padded to even length.
pub open spec fn spec_const_hex(c: ConstantV) -> Seq<char> {
    match c {
        ConstantV::Str(s) => bytes_hex(s),
        ConstantV::Hex(v) => {
            let r = hex_repr(if v >= 0 { v as nat } else { 0 });
            if r.len() % 2 == 0 {
                r
            } else {
                seq!['0'] + r
            }
        },
    }
}

/// The word of a format-Three instruction: 6 opcode bits, 6 flag bits, a
/// 12-bit displacement.
pub open spec fn word3(op: int, flags: nat, field: int) -> int {
    (op / 4) * 0x40000 + flags * 0x1000 + field
}

/// The word of a format-Four instruction: 6 opcode bits, 6 flag bits, a
/// 20-bit address.
pub open spec fn word4(op: int, flags: nat, field: int) -> int {
    (op / 4) * 0x4000000 + flags * 0x100000 + field
}

/// Encoding of a format-Four instruction against a resolved target
/// address `t`, held directly in the 20-bit field.
pub open spec fn spec_encode_ext(
    base: int,
    pc2: int,
    t: int,
    m: AddressingModes,
    op: int,
) -> Result<(Option<Seq<char>>, int, int), AsmErrorV> {
    let flags = spec_mode_nixbpe(m, false, false, true).spec_value();
    Ok((Some(hex_string(word4(op, flags, t) as nat, 8)), base, pc2))
}

/// Encoding of a format-Three/Four instruction against a resolved target
/// address `t`: format Four holds `t` directly; format Three tries the
/// PC-relative window `[-2048, 2047]` against `pc2` (the address after this
/// instruction), then the base-relative window `[0, 4095]`.
pub open spec fn spec_encode_target(
    base: int,
    pc2: int,
    t: int,
    m: AddressingModes,
    op: int,
) -> Result<(Option<Seq<char>>, int, int), AsmErrorV> {
    if -2048 <= t - pc2 <= 2047 {
        let flags = spec_mode_nixbpe(m, false, true, false).spec_value();
        let field = if t - pc2 < 0 {
            t - pc2 + 4096
        } else {
            t - pc2
        };
        Ok((Some(hex_string(word3(op, flags, field) as nat, 6)), base, pc2))
    } else if 0 <= t - base < 4096 {
        let flags = spec_mode_nixbpe(m, true, false, false).spec_value();
        Ok((Some(hex_string(word3(op, flags, t - base) as nat, 6)), base, pc2))
    } else {
        Err(AsmErrorV::DisplacementOutOfRange)
    }
}

/// Encoding of the operand field of a format-Three or format-Four
/// instruction.
pub open spec fn spec_encode_long(
    base: int,
    pc2: int,
    gm: crate::global_map::GlobalMapV,
    ad: AddressSpecV,
    op: int,
    ext: bool,
) -> Result<(Option<Seq<char>>, int, int), AsmErrorV> {
    match ad {
        AddressSpecV::Address(v, m) => {
            if ext {
                let flags = spec_mode_nixbpe(m, false, false, true).spec_value();
                if 0 <= v <= 0xFFFFF {
                    Ok((Some(hex_string(word4(op, flags, v) as nat, 8)), base, pc2))
                } else {
                    Err(AsmErrorV::DisplacementOutOfRange)
                }
            } else {
                let flags = spec_mode_nixbpe(m, false, false, false).spec_value();
                if 0 <= v <= 0xFFF {
                    Ok((Some(hex_string(word3(op, flags, v) as nat, 6)), base, pc2))
                } else {
                    Err(AsmErrorV::DisplacementOutOfRange)
                }
            }
        },
        AddressSpecV::Label(l, m) => {
            match find_label(gm.label_map, l) {
                None => Err(AsmErrorV::UnknownLabel(l)),
                Some(t) => {
                    if ext {
                        let flags = spec_mode_nixbpe(m, false, false, true).spec_value();
                        if 0 <= t <= 0xFFFFF {
                            Ok((Some(hex_string(word4(op, flags, t) as nat, 8)), base, pc2))
                        } else {
                            Err(AsmErrorV::DisplacementOutOfRange)
                        }
                    } else {
                        spec_encode_target(base, pc2, t, m, op)
                    }
                },
            }
        },
        AddressSpecV::Literal(c) => {
            match find_literal(gm.literal_map, c) {
                None => Err(AsmErrorV::UnresolvedLiteral),
                Some(t) => {
                    if ext {
                        let flags = spec_mode_nixbpe(AddressingModes::Direct, false, false, true)
                            .spec_value();
                        if 0 <= t <= 0xFFFFF {
                            Ok((Some(hex_string(word4(op, flags, t) as nat, 8)), base, pc2))
                        } else {
                            Err(AsmErrorV::DisplacementOutOfRange)
                        }
                    } else {
                        spec_encode_target(base, pc2, t, AddressingModes::Direct, op)
                    }
                },
            }
        },
        AddressSpecV::Constant(_) => Err(AsmErrorV::InvalidDirectiveOperand),
    }
}

/// Object code and state update of one line: the emitted hexadecimal
/// string (or nothing for silent directives), the base register value
/// after the line, and the location after the line.
pub open spec fn spec_object_code(
    base: int,
    pc: int,
    gm: crate::global_map::GlobalMapV,
    line: crate::parse_utils::ASMLineV,
) -> Result<(Option<Seq<char>>, int, int), AsmErrorV> {
    match spec_loc_inc(line.opcode_spec, line.address_spec) {
        Err(e) => Err(e),
        Ok(sz) => {
            let pc2 = pc + sz;
            match line.opcode_spec {
                OpcodeSpecV::Directive(d) => {
                    match d {
                        Directive::Base => {
                            match line.address_spec {
                                AddressSpecV::Label(l, _) => {
                                    match find_label(gm.label_map, l) {
                                        Some(a) => Ok((None, a, pc2)),
                                        None => Err(AsmErrorV::UnknownLabel(l)),
                                    }
                                },
                                AddressSpecV::Address(v, _) => Ok((None, v, pc2)),
                                _ => Err(AsmErrorV::InvalidBaseOperand),
                            }
                        },
                        Directive::Nobase => Ok((None, 0, pc2)),
                        Directive::Byte => {
                            match line.address_spec {
                                AddressSpecV::Constant(c) => Ok(
                                    (Some(spec_const_hex(c)), base, pc2),
                                ),
                                _ => Err(AsmErrorV::InvalidDirectiveOperand),
                            }
                        },
                        Directive::Word => {
                            match line.address_spec {
                                AddressSpecV::Address(v, _) => {
                                    if 0 <= v < 0x100_0000 {
                                        Ok((Some(hex_string(v as nat, 6)), base, pc2))
                                    } else {
                                        Err(AsmErrorV::DisplacementOutOfRange)
                                    }
                                },
                                AddressSpecV::Constant(ConstantV::Hex(v)) => {
                                    if 0 <= v < 0x100_0000 {
                                        Ok((Some(hex_string(v as nat, 6)), base, pc2))
                                    } else {
                                        Err(AsmErrorV::DisplacementOutOfRange)
                                    }
                                },
                                _ => Err(AsmErrorV::InvalidDirectiveOperand),
                            }
                        },
                        _ => Ok((None, base, pc2)),
                    }
                },
                OpcodeSpecV::Opcode(name, fmt) => {
                    match spec_opcode_detail(name) {
                        None => Err(AsmErrorV::UnknownMnemonic(name)),
                        Some(det) => {
                            let op = det.opcode as int;
                            match fmt {
                                OpcodeFormat::One => Ok(
                                    (Some(hex_string(op as nat, 2)), base, pc2),
                                ),
                                OpcodeFormat::Two => {
                                    match line.address_spec {
                                        AddressSpecV::Address(v, _) => {
                                            if 0 <= v < 256 {
                                                Ok(
                                                    (
                                                        Some(
                                                            hex_string((op * 256 + v) as nat, 4),
                                                        ),
                                                        base,
                                                        pc2,
                                                    ),
                                                )
                                            } else {
                                                Err(AsmErrorV::DisplacementOutOfRange)
                                            }
                                        },
                                        _ => Err(AsmErrorV::InvalidDirectiveOperand),
                                    }
                                },
                                OpcodeFormat::Three => spec_encode_long(
                                    base,
                                    pc2,
                                    gm,
                                    line.address_spec,
                                    op,
                                    false,
                                ),
                                OpcodeFormat::Four => spec_encode_long(
                                    base,
                                    pc2,
                                    gm,
                                    line.address_spec,
                                    op,
                                    true,
                                ),
                            }
                        },
                    }
                },
            }
        },
    }
}

/// How an executable encoding result relates to its mathematical
/// counterpart.
pub open spec fn matches_code_result(
    r: Result<(Option<String>, usize, usize), AsmError>,
    s: Result<(Option<Seq<char>>, int, int), AsmErrorV>,
) -> bool {
    match (r, s) {
        (Ok((c1, b1, p1)), Ok((c2, b2, p2))) => {
            &&& match (c1, c2) {
                (Some(x), Some(y)) => x@ == y,
                (None, None) => true,
                _ => false,
            }
            &&& b1 == b2
            &&& p1 == p2
        },
        (Err(x), Err(e)) => x@ == e,
        _ => false,
    }
}

/// The flag field for an addressing mode, with the given relative and
/// extended bits.
fn mode_nixbpe(m: AddressingModes, bset: bool, pset: bool, eset: bool) -> (f: Nixbpe)
    ensures
        f == spec_mode_nixbpe(m, bset, pset, eset),
{
    let mut f = Nixbpe::new();
    match m {
        AddressingModes::Immediate => f.set_immediate(),
        AddressingModes::Indirect => f.set_indirect(),
        AddressingModes::Indexed => {
            f.set_direct();
            f.set_indexed();
        },
        _ => f.set_direct(),
    }
    if bset {
        f.set_base_relative();
    }
    if pset {
        f.set_pc_relative();
    }
    if eset {
        f.set_extended();
    }
    f
}

/// Encodes a format-Three/Four operand field.
fn encode_long(
    base: usize,
    pc2: usize,
    global_map: &GlobalMap,
    ad: &AddressSpec,
    op: u8,
    ext: bool,
) -> (r: Result<(Option<String>, usize, usize), AsmError>)
    requires
        global_map_wf(global_map@),
        pc2 <= 0xFFFFF,
    ensures
        matches_code_result(
            r,
            spec_encode_long(base as int, pc2 as int, global_map@, ad@, op as int, ext),
        ),
{
    match ad {
        AddressSpec::Address(v, m) => {
            if ext {
                let f = mode_nixbpe(*m, false, false, true);
                if *v <= 0xFFFFF {
                    let word: u32 = ((op as u32) / 4) * 0x4000000 + f.value() * 0x100000 + (*v
                        as u32);
                    Ok((Some(u32_to_hex_string(word, 8)), base, pc2))
                } else {
                    Err(AsmError::DisplacementOutOfRange)
                }
            } else {
                let f = mode_nixbpe(*m, false, false, false);
                if *v <= 0xFFF {
                    let word: u32 = ((op as u32) / 4) * 0x40000 + f.value() * 0x1000 + (*v as u32);
                    Ok((Some(u32_to_hex_string(word, 6)), base, pc2))
                } else {
                    Err(AsmError::DisplacementOutOfRange)
                }
            }
        },
        AddressSpec::Label(l, m) => {
            match global_map.get_label(l.as_str()) {
                None => Err(AsmError::UnknownLabel(l.clone())),
                Some(t) => {
                    proof {
                        lemma_find_label_bound(global_map@.label_map, l@);
                    }
                    encode_resolved(base, pc2, t, *m, op, ext)
                },
            }
        },
        AddressSpec::Literal(c) => {
            match global_map.get_literal(c) {
                None => Err(AsmError::UnresolvedLiteral),
                Some(t) => {
                    proof {
                        lemma_find_literal_bound(global_map@.literal_map, c@);
                    }
                    encode_resolved(base, pc2, t, AddressingModes::Direct, op, ext)
                },
            }
        },
        AddressSpec::Constant(_) => Err(AsmError::InvalidDirectiveOperand),
    }
}

/// Encodes a format-Three/Four instruction against a resolved target
/// address.
fn encode_resolved(
    base: usize,
    pc2: usize,
    t: usize,
    m: AddressingModes,
    op: u8,
    ext: bool,
) -> (r: Result<(Option<String>, usize, usize), AsmError>)
    requires
        pc2 <= 0xFFFFF,
        t <= 0xFFFFF,
    ensures
        ext ==> matches_code_result(
            r,
            spec_encode_ext(base as int, pc2 as int, t as int, m, op as int),
        ),
        !ext ==> matches_code_result(
            r,
            spec_encode_target(base as int, pc2 as int, t as int, m, op as int),
        ),
{
    if ext {
        let f = mode_nixbpe(m, false, false, true);
        let word: u32 = ((op as u32) / 4) * 0x4000000 + f.value() * 0x100000 + (t as u32);
        Ok((Some(u32_to_hex_string(word, 8)), base, pc2))
    } else {
        let disp: i32 = (t as i32) - (pc2 as i32);
        if -2048 <= disp && disp <= 2047 {
            let f = mode_nixbpe(m, false, true, false);
            let field: u32 = if disp < 0 {
                (disp + 4096) as u32
            } else {
                disp as u32
            };
            let word: u32 = ((op as u32) / 4) * 0x40000 + f.value() * 0x1000 + field;
            Ok((Some(u32_to_hex_string(word, 6)), base, pc2))
        } else if base <= t && t - base < 4096 {
            let f = mode_nixbpe(m, true, false, false);
            let field: u32 = (t - base) as u32;
            let word: u32 = ((op as u32) / 4) * 0x40000 + f.value() * 0x1000 + field;
            Ok((Some(u32_to_hex_string(word, 6)), base, pc2))
        } else {
            Err(AsmError::DisplacementOutOfRange)
        }
    }
}

/// The object code of a constant operand of `BYTE`.
fn const_hex(c: &crate::global_map::Constant) -> (r: String)
    requires
        crate::global_map::constant_wf(c@),
    ensures
        r@ == spec_const_hex(c@),
{
    match c {
        crate::global_map::Constant::SicString(s) => {
            let v = crate::utils::str_chars(s.as_str());
            let mut out = String::new();
            let mut i: usize = 0;
            while i < v.len()
                invariant
                    i <= v@.len(),
                    v@ == s@,
                    crate::global_map::ascii_seq(s@),
                    out@ == bytes_hex(s@.subrange(0, i as int)),
                decreases v@.len() - i,
            {
                proof {
                    assert(crate::global_map::ascii_char(s@[i as int]));
                }
                let h = u32_to_hex_string(v[i] as u32, 2);
                out.append(h.as_str());
                proof {
                    assert(s@.subrange(0, i + 1).drop_last() =~= s@.subrange(0, i as int));
                    assert(s@.subrange(0, i + 1).last() == s@[i as int]);
                }
                i = i + 1;
            }
            proof {
                assert(s@.subrange(0, s@.len() as int) =~= s@);
            }
            out
        },
        crate::global_map::Constant::Hex(v) => {
            let digits = u32_to_hex_string(*v as u32, 0);
            let dl = digits.as_str().unicode_len();
            proof {
                assert(hex_string(*v as nat, 0) == hex_repr(*v as nat));
            }
            if dl % 2 == 1 {
                let z = String::from_str("0");
                let r = z.concat(digits.as_str());
                proof {
                    reveal_strlit("0");
                    assert(r@ =~= seq!['0'] + hex_repr(*v as nat));
                }
                r
            } else {
                digits
            }
        },
    }
}

/// Emits the object code of one line and threads the base and location
/// state, as pass two does line by line.
pub fn get_object_code(
    base: usize,
    pc: usize,
    global_map: &GlobalMap,
    asm_line: &ASMLine,
) -> (r: Result<(Option<String>, usize, usize), AsmError>)
    requires
        global_map_wf(global_map@),
        address_spec_wf(asm_line@.address_spec),
        pc <= 0xFFFFF,
        (spec_loc_inc(asm_line@.opcode_spec, asm_line@.address_spec) matches Ok(n) ==> pc + n
            <= 0xFFFFF),
    ensures
        matches_code_result(
            r,
            spec_object_code(base as int, pc as int, global_map@, asm_line@),
        ),
{
    let sz = match crate::parse_utils::get_loc_inc(&asm_line.opcode_spec, &asm_line.address_spec) {
        Ok(n) => n,
        Err(e) => {
            return Err(e);
        },
    };
    let pc2: usize = pc + sz;
    match &asm_line.opcode_spec {
        OpcodeSpec::Directive(d) => {
            match d {
                Directive::Base => {
                    match &asm_line.address_spec {
                        AddressSpec::Label(l, _) => {
                            match global_map.get_label(l.as_str()) {
                                Some(a) => Ok((None, a, pc2)),
                                None => Err(AsmError::UnknownLabel(l.clone())),
                            }
                        },
                        AddressSpec::Address(v, _) => Ok((None, *v, pc2)),
                        _ => Err(AsmError::InvalidBaseOperand),
                    }
                },
                Directive::Nobase => Ok((None, 0, pc2)),
                Directive::Byte => {
                    match &asm_line.address_spec {
                        AddressSpec::Constant(c) => Ok((Some(const_hex(c)), base, pc2)),
                        _ => Err(AsmError::InvalidDirectiveOperand),
                    }
                },
                Directive::Word => {
                    match &asm_line.address_spec {
                        AddressSpec::Address(v, _) => {
                            if *v < 0x100_0000 {
                                Ok((Some(u32_to_hex_string(*v as u32, 6)), base, pc2))
                            } else {
                                Err(AsmError::DisplacementOutOfRange)
                            }
                        },
                        AddressSpec::Constant(crate::global_map::Constant::Hex(v)) => {
                            if *v < 0x100_0000 {
                                Ok((Some(u32_to_hex_string(*v as u32, 6)), base, pc2))
                            } else {
                                Err(AsmError::DisplacementOutOfRange)
                            }
                        },
                        _ => Err(AsmError::InvalidDirectiveOperand),
                    }
                },
                _ => Ok((None, base, pc2)),
            }
        },
        OpcodeSpec::Opcode(name, fmt) => {
            let det = match global_map.get_opcode_value(name.as_str()) {
                Ok(det) => det,
                Err(e) => {
                    return Err(e);
                },
            };
            match fmt {
                OpcodeFormat::One => Ok((Some(u32_to_hex_string(det.opcode as u32, 2)), base, pc2)),
                OpcodeFormat::Two => {
                    match &asm_line.address_spec {
                        AddressSpec::Address(v, _) => {
                            if *v < 256 {
                                let word: u32 = (det.opcode as u32) * 256 + (*v as u32);
                                Ok((Some(u32_to_hex_string(word, 4)), base, pc2))
                            } else {
                                Err(AsmError::DisplacementOutOfRange)
                            }
                        },
                        _ => Err(AsmError::InvalidDirectiveOperand),
                    }
                },
                OpcodeFormat::Three => encode_long(
                    base,
                    pc2,
                    global_map,
                    &asm_line.address_spec,
                    det.opcode,
                    false,
                ),
                OpcodeFormat::Four => encode_long(
                    base,
                    pc2,
                    global_map,
                    &asm_line.address_spec,
                    det.opcode,
                    true,
                ),
            }
        },
    }
}

} // verus!
