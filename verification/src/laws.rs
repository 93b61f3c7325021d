//! Laws of the encoder, stated and proved over the same specification
//! functions that the executable functions' contracts use.

use vstd::prelude::*;

use crate::encoder::{
    bytes_hex, spec_const_hex, spec_encode_ext, spec_encode_target, spec_mode_nixbpe,
    spec_object_code, word3, word4,
};
use crate::error::AsmErrorV;
use crate::global_map::{
    spec_const_len, spec_opcode_detail, spec_register_val, ConstantV, GlobalMapV, OpcodeDetail,
};
use crate::parse_utils::{
    address_spec_wf, spec_loc_inc, spec_parse_address, AddressSpecV, AddressingModes, ASMLineV,
    OpcodeFormat, OpcodeSpecV,
};
use crate::utils::{hex_repr, hex_string, lemma_hex_string_len, lemma_pow16_values, spec_split};

verus! {

/// Two hexadecimal digits per character: the rendering of a `C'..'`
/// constant is twice as long as its text.
pub proof fn lemma_bytes_hex_len(s: Seq<char>)
    requires
        forall|i: int| 0 <= i < s.len() ==> ((#[trigger] s[i]) as u32) < 256,
    ensures
        bytes_hex(s).len() == 2 * s.len(),
    decreases s.len(),
{
    if s.len() > 0 {
        assert(forall|i: int|
            0 <= i < s.drop_last().len() ==> ((#[trigger] s.drop_last()[i]) as u32) < 256);
        lemma_bytes_hex_len(s.drop_last());
        lemma_pow16_values();
        lemma_hex_string_len(s.last() as u32 as nat, 2);
    }
}

/// *Size consistency.* Whenever a line emits a non-empty object code, the
/// emitted hexadecimal string is exactly twice the line's size in bytes.
pub proof fn lemma_size_consistency(base: int, pc: int, gm: GlobalMapV, line: ASMLineV)
    requires
        address_spec_wf(line.address_spec),
    ensures
        (spec_object_code(base, pc, gm, line) matches Ok(t) && t.0 matches Some(s)) ==> (
        spec_loc_inc(line.opcode_spec, line.address_spec) is Ok && (spec_object_code(
            base,
            pc,
            gm,
            line,
        )->Ok_0.0->Some_0).len() == 2 * spec_loc_inc(
            line.opcode_spec,
            line.address_spec,
        )->Ok_0),
{
    lemma_pow16_values();
    if spec_object_code(base, pc, gm, line) matches Ok(t) && t.0 is Some {
        match line.opcode_spec {
            OpcodeSpecV::Directive(d) => {
                match d {
                    crate::parse_utils::Directive::Byte => {
                        match line.address_spec {
                            AddressSpecV::Constant(c) => {
                                match c {
                                    ConstantV::Str(s) => {
                                        assert(forall|i: int|
                                            0 <= i < s.len() ==> ((#[trigger] s[i]) as u32) < 256);
                                        lemma_bytes_hex_len(s);
                                    },
                                    ConstantV::Hex(v) => {
                                        let r = hex_repr(if v >= 0 {
                                            v as nat
                                        } else {
                                            0
                                        });
                                        assert(spec_const_hex(c).len() == 2 * ((r.len() + 1) / 2));
                                        assert(spec_const_len(c) == (r.len() + 1) / 2);
                                    },
                                }
                            },
                            _ => {},
                        }
                    },
                    crate::parse_utils::Directive::Word => {
                        match line.address_spec {
                            AddressSpecV::Address(v, _) => {
                                lemma_hex_string_len(v as nat, 6);
                            },
                            AddressSpecV::Constant(ConstantV::Hex(v)) => {
                                lemma_hex_string_len(v as nat, 6);
                            },
                            _ => {},
                        }
                    },
                    _ => {},
                }
            },
            OpcodeSpecV::Opcode(name, fmt) => {
                match spec_opcode_detail(name) {
                    None => {},
                    Some(det) => {
                        let op = det.opcode as int;
                        match fmt {
                            OpcodeFormat::One => {
                                lemma_hex_string_len(op as nat, 2);
                            },
                            OpcodeFormat::Two => {
                                match line.address_spec {
                                    AddressSpecV::Address(v, _) => {
                                        if v < 256 {
                                            lemma_hex_string_len((op * 256 + v) as nat, 4);
                                        }
                                    },
                                    _ => {},
                                }
                            },
                            OpcodeFormat::Three => {
                                lemma_encode_long_len(base, pc, gm, line, op, false);
                            },
                            OpcodeFormat::Four => {
                                lemma_encode_long_len(base, pc, gm, line, op, true);
                            },
                        }
                    },
                }
            },
        }
    }
}

/// A format-Three word fits six hexadecimal digits and a format-Four word
/// fits eight.
proof fn lemma_encode_long_len(base: int, pc: int, gm: GlobalMapV, line: ASMLineV, op: int, ext: bool)
    requires
        0 <= op < 256,
        spec_loc_inc(line.opcode_spec, line.address_spec) is Ok,
    ensures
        (crate::encoder::spec_encode_long(
            base,
            pc + spec_loc_inc(line.opcode_spec, line.address_spec)->Ok_0,
            gm,
            line.address_spec,
            op,
            ext,
        ) matches Ok(t) && t.0 is Some) ==> (crate::encoder::spec_encode_long(
            base,
            pc + spec_loc_inc(line.opcode_spec, line.address_spec)->Ok_0,
            gm,
            line.address_spec,
            op,
            ext,
        )->Ok_0.0->Some_0).len() == (if ext {
            8int
        } else {
            6int
        }),
{
    lemma_pow16_values();
    let pc2 = pc + spec_loc_inc(line.opcode_spec, line.address_spec)->Ok_0;
    let r = crate::encoder::spec_encode_long(base, pc2, gm, line.address_spec, op, ext);
    if r matches Ok(t) && t.0 is Some {
        assert forall|flags: nat, field: int|
            flags < 64 && 0 <= field < 4096 implies #[trigger] word3(op, flags, field)
            < 0x100_0000 by {}
        assert forall|flags: nat, field: int|
            flags < 64 && 0 <= field <= 0xFFFFF implies #[trigger] word4(op, flags, field)
            < 0x1_0000_0000 by {}
        match line.address_spec {
            AddressSpecV::Address(v, m) => {
                if ext {
                    if 0 <= v <= 0xFFFFF {
                        lemma_hex_string_len(word4(op, spec_mode_nixbpe(m, false, false, true).spec_value(), v) as nat, 8);
                    }
                } else {
                    if 0 <= v <= 0xFFF {
                        lemma_hex_string_len(word3(op, spec_mode_nixbpe(m, false, false, false).spec_value(), v) as nat, 6);
                    }
                }
            },
            AddressSpecV::Label(l, m) => {
                match crate::global_map::find_label(gm.label_map, l) {
                    None => {},
                    Some(t0) => {
                        if ext {
                            if 0 <= t0 <= 0xFFFFF {
                                lemma_hex_string_len(word4(op, spec_mode_nixbpe(m, false, false, true).spec_value(), t0) as nat, 8);
                            }
                        } else {
                            lemma_target_len(base, pc2, t0, m, op);
                        }
                    },
                }
            },
            AddressSpecV::Literal(c) => {
                match crate::global_map::find_literal(gm.literal_map, c) {
                    None => {},
                    Some(t0) => {
                        if ext {
                            if 0 <= t0 <= 0xFFFFF {
                                lemma_hex_string_len(word4(op, spec_mode_nixbpe(AddressingModes::Direct, false, false, true).spec_value(), t0) as nat, 8);
                            }
                        } else {
                            lemma_target_len(base, pc2, t0, AddressingModes::Direct, op);
                        }
                    },
                }
            },
            AddressSpecV::Constant(_) => {},
        }
    }
}

/// A resolved format-Three encoding emits six hexadecimal digits.
proof fn lemma_target_len(base: int, pc2: int, t: int, m: AddressingModes, op: int)
    requires
        0 <= op < 256,
    ensures
        (spec_encode_target(base, pc2, t, m, op) matches Ok(r) && r.0 is Some)
            ==> (spec_encode_target(base, pc2, t, m, op)->Ok_0.0->Some_0).len() == 6,
{
    lemma_pow16_values();
    if -2048 <= t - pc2 <= 2047 {
        let flags = spec_mode_nixbpe(m, false, true, false).spec_value();
        let field = if t - pc2 < 0 {
            t - pc2 + 4096
        } else {
            t - pc2
        };
        lemma_hex_string_len(word3(op, flags, field) as nat, 6);
    } else if 0 <= t - base < 4096 {
        let flags = spec_mode_nixbpe(m, true, false, false).spec_value();
        lemma_hex_string_len(word3(op, flags, t - base) as nat, 6);
    }
}

/// *PC-relative exactness.* A format-Three instruction at address `a`
/// whose target `t` lies inside the PC-relative window around `a + 3`
/// encodes with `p` set, `b` clear, and a displacement field equal to
/// `(t - (a + 3))` modulo 4096.
pub proof fn lemma_pc_relative_exact(base: int, a: int, t: int, m: AddressingModes, op: int)
    requires
        a + 3 - 2048 <= t <= a + 3 + 2047,
    ensures
        spec_encode_target(base, a + 3, t, m, op) == Ok::<(Option<Seq<char>>, int, int), AsmErrorV>(
            (
                Some(
                    hex_string(
                        word3(
                            op,
                            spec_mode_nixbpe(m, false, true, false).spec_value(),
                            (t - (a + 3)) % 4096,
                        ) as nat,
                        6,
                    ),
                ),
                base,
                a + 3,
            ),
        ),
        (spec_mode_nixbpe(m, false, true, false).spec_value() / 2) % 2 == 1,
        (spec_mode_nixbpe(m, false, true, false).spec_value() / 4) % 2 == 0,
{
    let d = t - (a + 3);
    assert(d % 4096 == (if d < 0 {
        d + 4096
    } else {
        d
    })) by {
        if d < 0 {
            assert((d + 4096) % 4096 == d % 4096) by (nonlinear_arith);
            assert((d + 4096) % 4096 == d + 4096) by (nonlinear_arith)
                requires 0 <= d + 4096 < 4096;
        } else {
            assert(d % 4096 == d) by (nonlinear_arith)
                requires 0 <= d < 4096;
        }
    }
    match m {
        AddressingModes::Immediate => {},
        AddressingModes::Indirect => {},
        AddressingModes::Indexed => {},
        _ => {},
    }
}

/// *Base-relative fallback.* When the PC-relative window misses but the
/// target lies within 4096 bytes above the base register, the instruction
/// encodes with `b` set, `p` clear, and displacement `t - base`.
pub proof fn lemma_base_relative_fallback(base: int, pc2: int, t: int, m: AddressingModes, op: int)
    requires
        !(-2048 <= t - pc2 <= 2047),
        0 <= t - base < 4096,
    ensures
        spec_encode_target(base, pc2, t, m, op) == Ok::<(Option<Seq<char>>, int, int), AsmErrorV>(
            (
                Some(
                    hex_string(
                        word3(
                            op,
                            spec_mode_nixbpe(m, true, false, false).spec_value(),
                            t - base,
                        ) as nat,
                        6,
                    ),
                ),
                base,
                pc2,
            ),
        ),
        (spec_mode_nixbpe(m, true, false, false).spec_value() / 4) % 2 == 1,
        (spec_mode_nixbpe(m, true, false, false).spec_value() / 2) % 2 == 0,
{
    match m {
        AddressingModes::Immediate => {},
        AddressingModes::Indirect => {},
        AddressingModes::Indexed => {},
        _ => {},
    }
}

/// *Format-Four field.* An extended instruction encodes with `e` set, `b`
/// and `p` clear, and its low 20 bits hold the absolute target address.
pub proof fn lemma_format_four_field(base: int, pc2: int, t: int, m: AddressingModes, op: int)
    requires
        0 <= t <= 0xFFFFF,
        0 <= op < 256,
    ensures
        spec_encode_ext(base, pc2, t, m, op) == Ok::<(Option<Seq<char>>, int, int), AsmErrorV>(
            (
                Some(
                    hex_string(
                        word4(op, spec_mode_nixbpe(m, false, false, true).spec_value(), t) as nat,
                        8,
                    ),
                ),
                base,
                pc2,
            ),
        ),
        word4(op, spec_mode_nixbpe(m, false, false, true).spec_value(), t) % 0x100000 == t,
        (word4(op, spec_mode_nixbpe(m, false, false, true).spec_value(), t) / 0x100000) % 2 == 1,
        ((word4(op, spec_mode_nixbpe(m, false, false, true).spec_value(), t) / 0x100000) / 2) % 2
            == 0,
        ((word4(op, spec_mode_nixbpe(m, false, false, true).spec_value(), t) / 0x100000) / 4) % 2
            == 0,
{
    let flags = spec_mode_nixbpe(m, false, false, true).spec_value();
    let w = word4(op, flags, t);
    let o6 = op / 4;
    let fl = flags as int;
    assert(flags < 64);
    assert(0 <= o6);
    assert((o6 * 64 + fl) * 0x100000 == o6 * 0x4000000 + fl * 0x100000) by (nonlinear_arith);
    assert(w == (o6 * 64 + fl) * 0x100000 + t);
    assert(w % 0x100000 == t && w / 0x100000 == o6 * 64 + fl) by (nonlinear_arith)
        requires
            w == (o6 * 64 + fl) * 0x100000 + t,
            0 <= t < 0x100000,
            0 <= o6 * 64 + fl,
    ;
    match m {
        AddressingModes::Immediate => {},
        AddressingModes::Indirect => {},
        AddressingModes::Indexed => {},
        _ => {},
    }
}

/// The parsed line of a format-Two instruction over a packed register
/// pair.
pub open spec fn format_two_line(name: Seq<char>, v: int) -> ASMLineV {
    ASMLineV {
        opcode_spec: OpcodeSpecV::Opcode(name, OpcodeFormat::Two),
        address_spec: AddressSpecV::Address(v, AddressingModes::Absent),
    }
}

/// *Register-pair packing.* An operand `r1,r2` over two register names
/// parses to the packed value `r1 * 16 + r2`, and a format-Two
/// instruction over it emits the sixteen bits `opcode, r1, r2`.
pub proof fn lemma_register_pair_packing(
    s: Seq<char>,
    r1: Seq<char>,
    r2: Seq<char>,
    v1: int,
    v2: int,
    name: Seq<char>,
    det: OpcodeDetail,
    base: int,
    pc: int,
    gm: GlobalMapV,
)
    requires
        spec_split(s, ',') == seq![r1, r2],
        spec_register_val(r1) == Some(v1),
        spec_register_val(r2) == Some(v2),
        spec_opcode_detail(name) == Some(det),
        det.format == OpcodeFormat::Two,
    ensures
        spec_parse_address(s) == Ok::<AddressSpecV, AsmErrorV>(
            AddressSpecV::Address(v1 * 16 + v2, AddressingModes::Absent),
        ),
        spec_object_code(base, pc, gm, format_two_line(name, v1 * 16 + v2)) == Ok::<
            (Option<Seq<char>>, int, int),
            AsmErrorV,
        >(
            (
                Some(hex_string((((det.opcode as int) * 16 + v1) * 16 + v2) as nat, 4)),
                base,
                pc + 2,
            ),
        ),
{
    assert(spec_split(s, ',')[0] == r1);
    assert(spec_split(s, ',')[1] == r2);
    assert(0 <= v1 <= 9 && 0 <= v2 <= 9);
    assert((det.opcode as int) * 256 + (v1 * 16 + v2) == ((det.opcode as int) * 16 + v1) * 16
        + v2);
}

} // verus!
