//! The structured form of a source line — addressing modes, instruction
//! formats, operand and mnemonic classifications — and the line parser.

use vstd::prelude::*;

use crate::error::{AsmError, AsmErrorV};
use crate::global_map::{
    ascii_char, ascii_seq, constant_wf, spec_const_len, spec_opcode_detail, spec_register_val,
    Constant, ConstantV, GlobalMap,
};
use crate::utils::{
    all_hex_digits, hex_val, is_hex_digit, is_valid_decimal_string, matches_result, spec_split,
    spec_is_i32_decimal, spec_usize_decimal_val, split_string, str_chars, str_eq, string_to_usize,
    substring_of,
};

verus! {

/// How an operand addresses its target.
#[derive(Clone, Copy, Debug, PartialEq, Eq, Structural)]
pub enum AddressingModes {
    Absent,
    Immediate,
    Indirect,
    Indexed,
    Direct,
}

/// The instruction width class of an opcode.
#[derive(Clone, Copy, Debug, PartialEq, Eq, Structural)]
pub enum OpcodeFormat {
    One,
    Two,
    Three,
    Four,
}

/// An assembler directive.
#[derive(Clone, Copy, Debug, PartialEq, Eq, Structural)]
pub enum Directive {
    Start,
    End,
    Base,
    Nobase,
    Ltorg,
    Resw,
    Resb,
    Word,
    Byte,
    Equ,
}

/// The classified operand of a source line.
#[derive(Clone, Debug, PartialEq)]
pub enum AddressSpec {
    /// A resolved integer (decimal literal or packed register pair).
    Address(usize, AddressingModes),
    /// A symbolic reference resolved in pass two.
    Label(String, AddressingModes),
    /// A `=C'..'` or `=X'..'` form placed in a literal pool.
    Literal(Constant),
    /// An inline `C'..'` or `X'..'` form used by `BYTE` / `WORD`.
    Constant(Constant),
}

/// The classified mnemonic of a source line.
#[derive(Clone, Debug, PartialEq)]
pub enum OpcodeSpec {
    Directive(Directive),
    Opcode(String, OpcodeFormat),
}

/// One parsed source line.
#[derive(Clone, Debug)]
pub struct ASMLine {
    pub opcode_spec: OpcodeSpec,
    pub address_spec: AddressSpec,
}

/// The mathematical shape of an [`AddressSpec`].
pub enum AddressSpecV {
    Address(int, AddressingModes),
    Label(Seq<char>, AddressingModes),
    Literal(ConstantV),
    Constant(ConstantV),
}

/// The mathematical shape of an [`OpcodeSpec`].
pub enum OpcodeSpecV {
    Directive(Directive),
    Opcode(Seq<char>, OpcodeFormat),
}

/// The mathematical shape of an [`ASMLine`].
pub struct ASMLineV {
    pub opcode_spec: OpcodeSpecV,
    pub address_spec: AddressSpecV,
}

impl View for AddressSpec {
    type V = AddressSpecV;

    open spec fn view(&self) -> AddressSpecV {
        match self {
            AddressSpec::Address(v, m) => AddressSpecV::Address(*v as int, *m),
            AddressSpec::Label(s, m) => AddressSpecV::Label(s@, *m),
            AddressSpec::Literal(c) => AddressSpecV::Literal(c@),
            AddressSpec::Constant(c) => AddressSpecV::Constant(c@),
        }
    }
}

impl View for OpcodeSpec {
    type V = OpcodeSpecV;

    open spec fn view(&self) -> OpcodeSpecV {
        match self {
            OpcodeSpec::Directive(d) => OpcodeSpecV::Directive(*d),
            OpcodeSpec::Opcode(s, f) => OpcodeSpecV::Opcode(s@, *f),
        }
    }
}

impl View for ASMLine {
    type V = ASMLineV;

    open spec fn view(&self) -> ASMLineV {
        ASMLineV { opcode_spec: self.opcode_spec@, address_spec: self.address_spec@ }
    }
}

/// Validity of an operand: any constant it carries is well-formed.
pub open spec fn address_spec_wf(ad: AddressSpecV) -> bool {
    match ad {
        AddressSpecV::Address(v, _) => 0 <= v <= usize::MAX,
        AddressSpecV::Label(_, _) => true,
        AddressSpecV::Literal(c) => constant_wf(c),
        AddressSpecV::Constant(c) => constant_wf(c),
    }
}

// ---------------------------------------------------------------------------
// Mnemonic classification
// ---------------------------------------------------------------------------

/// The directive named `name`, if any.
pub open spec fn spec_directive_of(name: Seq<char>) -> Option<Directive> {
    if name == "START"@ { Some(Directive::Start) }
    else if name == "END"@ { Some(Directive::End) }
    else if name == "BASE"@ { Some(Directive::Base) }
    else if name == "NOBASE"@ { Some(Directive::Nobase) }
    else if name == "LTORG"@ { Some(Directive::Ltorg) }
    else if name == "RESW"@ { Some(Directive::Resw) }
    else if name == "RESB"@ { Some(Directive::Resb) }
    else if name == "WORD"@ { Some(Directive::Word) }
    else if name == "BYTE"@ { Some(Directive::Byte) }
    else if name == "EQU"@ { Some(Directive::Equ) }
    else { None }
}

/// The directive named `name`, if any.
pub fn directive_of(name: &str) -> (r: Option<Directive>)
    ensures
        r == spec_directive_of(name@),
{
    if str_eq(name, "START") { Some(Directive::Start) }
    else if str_eq(name, "END") { Some(Directive::End) }
    else if str_eq(name, "BASE") { Some(Directive::Base) }
    else if str_eq(name, "NOBASE") { Some(Directive::Nobase) }
    else if str_eq(name, "LTORG") { Some(Directive::Ltorg) }
    else if str_eq(name, "RESW") { Some(Directive::Resw) }
    else if str_eq(name, "RESB") { Some(Directive::Resb) }
    else if str_eq(name, "WORD") { Some(Directive::Word) }
    else if str_eq(name, "BYTE") { Some(Directive::Byte) }
    else if str_eq(name, "EQU") { Some(Directive::Equ) }
    else { None }
}

/// Classification of a mnemonic field: a directive name; or a `+`-prefixed
/// format-Three opcode, forced to format Four; or a plain opcode with its
/// catalog format.
pub open spec fn spec_parse_opcode(name: Seq<char>) -> Result<OpcodeSpecV, AsmErrorV> {
    match spec_directive_of(name) {
        Some(d) => Ok(OpcodeSpecV::Directive(d)),
        None => {
            if name.len() > 0 && name[0] == '+' {
                let rest = name.subrange(1, name.len() as int);
                match spec_opcode_detail(rest) {
                    Some(det) => {
                        if det.format == OpcodeFormat::Three {
                            Ok(OpcodeSpecV::Opcode(rest, OpcodeFormat::Four))
                        } else {
                            Err(AsmErrorV::InvalidExtended(name))
                        }
                    },
                    None => Err(AsmErrorV::UnknownMnemonic(rest)),
                }
            } else {
                match spec_opcode_detail(name) {
                    Some(det) => Ok(OpcodeSpecV::Opcode(name, det.format)),
                    None => Err(AsmErrorV::UnknownMnemonic(name)),
                }
            }
        },
    }
}

/// Classifies the mnemonic field of a line.
pub fn parse_opcode(global_map: &GlobalMap, opcode: &str) -> (r: Result<OpcodeSpec, AsmError>)
    ensures
        matches_result(r, spec_parse_opcode(opcode@)),
{
    if let Some(d) = directive_of(opcode) {
        return Ok(OpcodeSpec::Directive(d));
    }
    let v = str_chars(opcode);
    if v.len() > 0 && v[0] == '+' {
        let rest = substring_of(&v, 1, v.len());
        match global_map.get_opcode_value(rest.as_str()) {
            Ok(det) => {
                if det.format == OpcodeFormat::Three {
                    Ok(OpcodeSpec::Opcode(rest, OpcodeFormat::Four))
                } else {
                    Err(AsmError::InvalidExtended(String::from_str(opcode)))
                }
            },
            Err(_) => Err(AsmError::UnknownMnemonic(rest)),
        }
    } else {
        match global_map.get_opcode_value(opcode) {
            Ok(det) => Ok(OpcodeSpec::Opcode(String::from_str(opcode), det.format)),
            Err(e) => Err(e),
        }
    }
}

// ---------------------------------------------------------------------------
// Constant parsing
// ---------------------------------------------------------------------------

/// Classification of a quoted constant body: `X` takes a non-empty string
/// of hexadecimal digits denoting a 31-bit value, `C` takes ASCII text.
pub open spec fn spec_parse_constant(qualifier: char, body: Seq<char>) -> Result<
    ConstantV,
    AsmErrorV,
> {
    if qualifier == 'X' {
        if body.len() > 0 && all_hex_digits(body) && hex_val(body) <= 0x7FFF_FFFF {
            Ok(ConstantV::Hex(hex_val(body) as int))
        } else {
            Err(AsmErrorV::InvalidLiteral(body))
        }
    } else if qualifier == 'C' {
        if ascii_seq(body) {
            Ok(ConstantV::Str(body))
        } else {
            Err(AsmErrorV::InvalidLiteral(body))
        }
    } else {
        Err(AsmErrorV::InvalidLiteral(body))
    }
}

/// Parses the body of a `C'..'` or `X'..'` form.
pub fn parse_constant(qualifier: char, constant: String) -> (r: Result<Constant, AsmError>)
    ensures
        matches_result(r, spec_parse_constant(qualifier, constant@)),
        r matches Ok(c) ==> constant_wf(c@),
{
    let v = str_chars(constant.as_str());
    if qualifier == 'X' {
        if v.len() == 0 {
            return Err(AsmError::InvalidLiteral(constant));
        }
        let mut acc: u64 = 0;
        let mut i: usize = 0;
        while i < v.len()
            invariant
                qualifier == 'X',
                v@.len() > 0,
                i <= v@.len(),
                v@ == constant@,
                acc == hex_val(constant@.subrange(0, i as int)),
                acc <= 0x7FFF_FFFF,
                all_hex_digits(constant@.subrange(0, i as int)),
            decreases v@.len() - i,
        {
            let c = v[i];
            let cu: u32 = c as u32;
            proof {
                crate::utils::lemma_hex_val_extend(constant@, i as int);
            }
            let d: u32 = if 48 <= cu && cu <= 57 {
                cu - 48
            } else if 65 <= cu && cu <= 70 {
                cu - 55
            } else if 97 <= cu && cu <= 102 {
                cu - 87
            } else {
                proof {
                    assert(!is_hex_digit(constant@[i as int]));
                }
                return Err(AsmError::InvalidLiteral(constant));
            };
            let next: u64 = acc * 16 + (d as u64);
            proof {
                assert(next == hex_val(constant@.subrange(0, i + 1)));
                assert(forall|j: int|
                    0 <= j < i + 1 ==> is_hex_digit(
                        #[trigger] constant@.subrange(0, i + 1)[j],
                    ));
            }
            if next > 0x7FFF_FFFF {
                proof {
                    crate::utils::lemma_hex_val_prefix_le(constant@, i + 1);
                }
                return Err(AsmError::InvalidLiteral(constant));
            }
            acc = next;
            i = i + 1;
        }
        proof {
            assert(constant@.subrange(0, constant@.len() as int) =~= constant@);
        }
        Ok(Constant::Hex(acc as i32))
    } else if qualifier == 'C' {
        let mut i: usize = 0;
        while i < v.len()
            invariant
                qualifier == 'C',
                i <= v@.len(),
                v@ == constant@,
                forall|j: int| 0 <= j < i ==> ascii_char(#[trigger] constant@[j]),
            decreases v@.len() - i,
        {
            let c = v[i];
            if (c as u32) >= 128 {
                proof {
                    assert(!ascii_char(constant@[i as int]));
                }
                return Err(AsmError::InvalidLiteral(constant));
            }
            i = i + 1;
        }
        proof {
            assert(ascii_seq(constant@));
        }
        Ok(Constant::SicString(constant))
    } else {
        Err(AsmError::InvalidLiteral(constant))
    }
}

// ---------------------------------------------------------------------------
// Operand classification
// ---------------------------------------------------------------------------

/// Classification of a bare symbol-or-integer operand: a non-negative
/// decimal integer is an address; a register name is its number shifted
/// into the high nibble; anything else is a label reference.
pub open spec fn spec_label_or_address(s: Seq<char>, mode: AddressingModes) -> Result<
    AddressSpecV,
    AsmErrorV,
> {
    if spec_is_i32_decimal(s) {
        if s[0] == '-' {
            Err(AsmErrorV::MalformedOperand(s))
        } else {
            Ok(AddressSpecV::Address(spec_usize_decimal_val(s) as int, mode))
        }
    } else {
        match spec_register_val(s) {
            Some(v) => Ok(AddressSpecV::Address(v * 16, mode)),
            None => Ok(AddressSpecV::Label(s, mode)),
        }
    }
}

/// Classifies a bare symbol-or-integer operand.
pub fn label_or_address(global_map: &GlobalMap, address: &str, addressing_modes: AddressingModes)
    -> (r: Result<AddressSpec, AsmError>)
    ensures
        matches_result(r, spec_label_or_address(address@, addressing_modes)),
{
    if is_valid_decimal_string(address) {
        let v = str_chars(address);
        if v[0] == '-' {
            Err(AsmError::MalformedOperand(String::from_str(address)))
        } else {
            Ok(AddressSpec::Address(string_to_usize(address), addressing_modes))
        }
    } else {
        match global_map.get_reg_value(address) {
            Ok(rv) => Ok(AddressSpec::Address((rv as usize) * 16, addressing_modes)),
            Err(_) => Ok(AddressSpec::Label(String::from_str(address), addressing_modes)),
        }
    }
}

/// Classification of a comma-free operand: a literal, an inline constant,
/// an immediate or indirect reference, or a direct symbol-or-integer.
pub open spec fn spec_parse_single(s: Seq<char>) -> Result<AddressSpecV, AsmErrorV> {
    if s.len() == 0 {
        Err(AsmErrorV::MalformedOperand(s))
    } else if s[0] == '=' {
        if s.len() >= 4 && (s[1] == 'C' || s[1] == 'X') && s[2] == '\'' && s[s.len() - 1] == '\'' {
            match spec_parse_constant(s[1], s.subrange(3, s.len() - 1)) {
                Ok(c) => Ok(AddressSpecV::Literal(c)),
                Err(e) => Err(e),
            }
        } else {
            Err(AsmErrorV::InvalidLiteral(s))
        }
    } else if (s[0] == 'C' || s[0] == 'X') && s.len() >= 2 && s[1] == '\'' {
        if s.len() >= 3 && s[s.len() - 1] == '\'' {
            match spec_parse_constant(s[0], s.subrange(2, s.len() - 1)) {
                Ok(c) => Ok(AddressSpecV::Constant(c)),
                Err(e) => Err(e),
            }
        } else {
            Err(AsmErrorV::InvalidLiteral(s))
        }
    } else if s[0] == '#' {
        spec_label_or_address(s.subrange(1, s.len() as int), AddressingModes::Immediate)
    } else if s[0] == '@' {
        spec_label_or_address(s.subrange(1, s.len() as int), AddressingModes::Indirect)
    } else {
        spec_label_or_address(s, AddressingModes::Direct)
    }
}

/// Classifies a comma-free operand.
fn parse_single(global_map: &GlobalMap, address: &str) -> (r: Result<AddressSpec, AsmError>)
    ensures
        matches_result(r, spec_parse_single(address@)),
{
    let v = str_chars(address);
    if v.len() == 0 {
        Err(AsmError::MalformedOperand(String::from_str(address)))
    } else if v[0] == '=' {
        if v.len() >= 4 && (v[1] == 'C' || v[1] == 'X') && v[2] == '\'' && v[v.len() - 1] == '\'' {
            let body = substring_of(&v, 3, v.len() - 1);
            match parse_constant(v[1], body) {
                Ok(c) => Ok(AddressSpec::Literal(c)),
                Err(e) => Err(e),
            }
        } else {
            Err(AsmError::InvalidLiteral(String::from_str(address)))
        }
    } else if (v[0] == 'C' || v[0] == 'X') && v.len() >= 2 && v[1] == '\'' {
        if v.len() >= 3 && v[v.len() - 1] == '\'' {
            let body = substring_of(&v, 2, v.len() - 1);
            match parse_constant(v[0], body) {
                Ok(c) => Ok(AddressSpec::Constant(c)),
                Err(e) => Err(e),
            }
        } else {
            Err(AsmError::InvalidLiteral(String::from_str(address)))
        }
    } else if v[0] == '#' {
        let rest = substring_of(&v, 1, v.len());
        label_or_address(global_map, rest.as_str(), AddressingModes::Immediate)
    } else if v[0] == '@' {
        let rest = substring_of(&v, 1, v.len());
        label_or_address(global_map, rest.as_str(), AddressingModes::Indirect)
    } else {
        label_or_address(global_map, address, AddressingModes::Direct)
    }
}

/// Classification of an operand field: a register pair, an indexed symbol,
/// or a comma-free operand.
pub open spec fn spec_parse_address(s: Seq<char>) -> Result<AddressSpecV, AsmErrorV> {
    let parts = spec_split(s, ',');
    if parts.len() == 2 {
        let r1 = parts[0];
        let r2 = parts[1];
        match spec_register_val(r1) {
            Some(v1) => {
                match spec_register_val(r2) {
                    Some(v2) => Ok(
                        AddressSpecV::Address(v1 * 16 + v2, AddressingModes::Absent),
                    ),
                    None => Err(AsmErrorV::UnknownRegister(r2)),
                }
            },
            None => {
                if r2 == "X"@ {
                    spec_label_or_address(r1, AddressingModes::Indexed)
                } else {
                    Err(AsmErrorV::MalformedOperand(s))
                }
            },
        }
    } else if parts.len() == 1 {
        spec_parse_single(parts[0])
    } else {
        Err(AsmErrorV::MalformedOperand(s))
    }
}

/// Classifies the operand field of a line.
pub fn parse_address(global_map: &GlobalMap, address: &str) -> (r: Result<AddressSpec, AsmError>)
    ensures
        matches_result(r, spec_parse_address(address@)),
{
    let parts = split_string(address, ',');
    let ghost sparts = spec_split(address@, ',');
    proof {
        assert(parts@.map_values(|t: String| t@).len() == parts@.len());
    }
    if parts.len() == 2 {
        proof {
            assert(parts@[0]@ == sparts[0]);
            assert(parts@[1]@ == sparts[1]);
        }
        let r1 = parts[0].as_str();
        let r2 = parts[1].as_str();
        match global_map.get_reg_value(r1) {
            Ok(v1) => {
                match global_map.get_reg_value(r2) {
                    Ok(v2) => Ok(
                        AddressSpec::Address(
                            (v1 as usize) * 16 + (v2 as usize),
                            AddressingModes::Absent,
                        ),
                    ),
                    Err(e) => Err(e),
                }
            },
            Err(_) => {
                if str_eq(r2, "X") {
                    label_or_address(global_map, r1, AddressingModes::Indexed)
                } else {
                    Err(AsmError::MalformedOperand(String::from_str(address)))
                }
            },
        }
    } else if parts.len() == 1 {
        proof {
            assert(parts@[0]@ == sparts[0]);
        }
        parse_single(global_map, parts[0].as_str())
    } else {
        Err(AsmError::MalformedOperand(String::from_str(address)))
    }
}

// ---------------------------------------------------------------------------
// Line sizes
// ---------------------------------------------------------------------------

/// Bytes of storage a line occupies: the instruction width for opcodes, the
/// reservation or constant size for storage directives, zero for the rest.
/// A single line larger than the 20-bit address space is refused.
pub open spec fn spec_loc_inc(op: OpcodeSpecV, ad: AddressSpecV) -> Result<nat, AsmErrorV> {
    match op {
        OpcodeSpecV::Directive(d) => {
            match d {
                Directive::Start => {
                    match ad {
                        AddressSpecV::Address(_, _) => Ok(0),
                        _ => Err(AsmErrorV::InvalidStartAddress),
                    }
                },
                Directive::Resw => {
                    match ad {
                        AddressSpecV::Address(n, _) => {
                            if 3 * n <= 0xFFFFF {
                                Ok((3 * n) as nat)
                            } else {
                                Err(AsmErrorV::ProgramTooLarge)
                            }
                        },
                        _ => Err(AsmErrorV::InvalidDirectiveOperand),
                    }
                },
                Directive::Resb => {
                    match ad {
                        AddressSpecV::Address(n, _) => {
                            if n <= 0xFFFFF {
                                Ok(n as nat)
                            } else {
                                Err(AsmErrorV::ProgramTooLarge)
                            }
                        },
                        _ => Err(AsmErrorV::InvalidDirectiveOperand),
                    }
                },
                Directive::Word => Ok(3),
                Directive::Byte => {
                    match ad {
                        AddressSpecV::Constant(c) => {
                            if spec_const_len(c) <= 0xFFFFF {
                                Ok(spec_const_len(c))
                            } else {
                                Err(AsmErrorV::ProgramTooLarge)
                            }
                        },
                        _ => Err(AsmErrorV::InvalidDirectiveOperand),
                    }
                },
                _ => Ok(0),
            }
        },
        OpcodeSpecV::Opcode(_, f) => {
            match f {
                OpcodeFormat::One => Ok(1),
                OpcodeFormat::Two => Ok(2),
                OpcodeFormat::Three => Ok(3),
                OpcodeFormat::Four => Ok(4),
            }
        },
    }
}

/// Bytes of storage a line occupies.
pub fn get_loc_inc(opcode_spec: &OpcodeSpec, address_specs: &AddressSpec) -> (r: Result<
    usize,
    AsmError,
>)
    requires
        address_spec_wf(address_specs@),
    ensures
        match spec_loc_inc(opcode_spec@, address_specs@) {
            Ok(n) => r matches Ok(x) && x == n,
            Err(e) => r matches Err(x) && x@ == e,
        },
{
    match opcode_spec {
        OpcodeSpec::Directive(d) => {
            match d {
                Directive::Start => {
                    match address_specs {
                        AddressSpec::Address(_, _) => Ok(0),
                        _ => Err(AsmError::InvalidStartAddress),
                    }
                },
                Directive::Resw => {
                    match address_specs {
                        AddressSpec::Address(n, _) => {
                            if *n <= 0xFFFFF / 3 {
                                Ok(*n * 3)
                            } else {
                                Err(AsmError::ProgramTooLarge)
                            }
                        },
                        _ => Err(AsmError::InvalidDirectiveOperand),
                    }
                },
                Directive::Resb => {
                    match address_specs {
                        AddressSpec::Address(n, _) => {
                            if *n <= 0xFFFFF {
                                Ok(*n)
                            } else {
                                Err(AsmError::ProgramTooLarge)
                            }
                        },
                        _ => Err(AsmError::InvalidDirectiveOperand),
                    }
                },
                Directive::Word => Ok(3),
                Directive::Byte => {
                    match address_specs {
                        AddressSpec::Constant(c) => {
                            let len = c.get_len();
                            if len <= 0xFFFFF {
                                Ok(len)
                            } else {
                                Err(AsmError::ProgramTooLarge)
                            }
                        },
                        _ => Err(AsmError::InvalidDirectiveOperand),
                    }
                },
                _ => Ok(0),
            }
        },
        OpcodeSpec::Opcode(_, f) => {
            match f {
                OpcodeFormat::One => Ok(1),
                OpcodeFormat::Two => Ok(2),
                OpcodeFormat::Three => Ok(3),
                OpcodeFormat::Four => Ok(4),
            }
        },
    }
}

} // verus!
