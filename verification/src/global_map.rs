//! The static opcode and register catalogs, the constant data type, and
//! the symbol tables that pass one fills and pass two reads.

use vstd::prelude::*;

use crate::error::AsmError;
use crate::parse_utils::OpcodeFormat;
use crate::utils::{hex_repr, str_eq};

verus! {

/// One opcode-catalog entry: the opcode byte (low two bits zero) and the
/// native instruction format.
#[derive(Clone, Copy, Debug, PartialEq, Eq, Structural)]
pub struct OpcodeDetail {
    pub opcode: u8,
    pub format: OpcodeFormat,
}

/// The catalog entry for a mnemonic, or `None` for an unknown one.
pub open spec fn spec_opcode_detail(name: Seq<char>) -> Option<OpcodeDetail> {
        if name == "ADD"@ {
            Some(OpcodeDetail { opcode: 0x18, format: OpcodeFormat::Three })
        } else if name == "ADDF"@ {
            Some(OpcodeDetail { opcode: 0x58, format: OpcodeFormat::Three })
        } else if name == "ADDR"@ {
            Some(OpcodeDetail { opcode: 0x90, format: OpcodeFormat::Two })
        } else if name == "AND"@ {
            Some(OpcodeDetail { opcode: 0x40, format: OpcodeFormat::Three })
        } else if name == "CLEAR"@ {
            Some(OpcodeDetail { opcode: 0xB4, format: OpcodeFormat::Two })
        } else if name == "COMP"@ {
            Some(OpcodeDetail { opcode: 0x28, format: OpcodeFormat::Three })
        } else if name == "COMPF"@ {
            Some(OpcodeDetail { opcode: 0x88, format: OpcodeFormat::Three })
        } else if name == "COMPR"@ {
            Some(OpcodeDetail { opcode: 0xA0, format: OpcodeFormat::Two })
        } else if name == "DIV"@ {
            Some(OpcodeDetail { opcode: 0x24, format: OpcodeFormat::Three })
        } else if name == "DIVF"@ {
            Some(OpcodeDetail { opcode: 0x64, format: OpcodeFormat::Three })
        } else if name == "DIVR"@ {
            Some(OpcodeDetail { opcode: 0x9C, format: OpcodeFormat::Two })
        } else if name == "FIX"@ {
            Some(OpcodeDetail { opcode: 0xC4, format: OpcodeFormat::One })
        } else if name == "FLOAT"@ {
            Some(OpcodeDetail { opcode: 0xC0, format: OpcodeFormat::One })
        } else if name == "HIO"@ {
            Some(OpcodeDetail { opcode: 0xF4, format: OpcodeFormat::One })
        } else if name == "J"@ {
            Some(OpcodeDetail { opcode: 0x3C, format: OpcodeFormat::Three })
        } else if name == "JEQ"@ {
            Some(OpcodeDetail { opcode: 0x30, format: OpcodeFormat::Three })
        } else if name == "JGT"@ {
            Some(OpcodeDetail { opcode: 0x34, format: OpcodeFormat::Three })
        } else if name == "JLT"@ {
            Some(OpcodeDetail { opcode: 0x38, format: OpcodeFormat::Three })
        } else if name == "JSUB"@ {
            Some(OpcodeDetail { opcode: 0x48, format: OpcodeFormat::Three })
        } else if name == "LDA"@ {
            Some(OpcodeDetail { opcode: 0x00, format: OpcodeFormat::Three })
        } else if name == "LDB"@ {
            Some(OpcodeDetail { opcode: 0x68, format: OpcodeFormat::Three })
        } else if name == "LDCH"@ {
            Some(OpcodeDetail { opcode: 0x50, format: OpcodeFormat::Three })
        } else if name == "LDF"@ {
            Some(OpcodeDetail { opcode: 0x70, format: OpcodeFormat::Three })
        } else if name == "LDL"@ {
            Some(OpcodeDetail { opcode: 0x08, format: OpcodeFormat::Three })
        } else if name == "LDS"@ {
            Some(OpcodeDetail { opcode: 0x6C, format: OpcodeFormat::Three })
        } else if name == "LDT"@ {
            Some(OpcodeDetail { opcode: 0x74, format: OpcodeFormat::Three })
        } else if name == "LDX"@ {
            Some(OpcodeDetail { opcode: 0x04, format: OpcodeFormat::Three })
        } else if name == "LPS"@ {
            Some(OpcodeDetail { opcode: 0xD0, format: OpcodeFormat::Three })
        } else if name == "MUL"@ {
            Some(OpcodeDetail { opcode: 0x20, format: OpcodeFormat::Three })
        } else if name == "MULF"@ {
            Some(OpcodeDetail { opcode: 0x60, format: OpcodeFormat::Three })
        } else if name == "MULR"@ {
            Some(OpcodeDetail { opcode: 0x98, format: OpcodeFormat::Two })
        } else if name == "NORM"@ {
            Some(OpcodeDetail { opcode: 0xC8, format: OpcodeFormat::One })
        } else if name == "OR"@ {
            Some(OpcodeDetail { opcode: 0x44, format: OpcodeFormat::Three })
        } else if name == "RD"@ {
            Some(OpcodeDetail { opcode: 0xD8, format: OpcodeFormat::Three })
        } else if name == "RMO"@ {
            Some(OpcodeDetail { opcode: 0xAC, format: OpcodeFormat::Two })
        } else if name == "RSUB"@ {
            Some(OpcodeDetail { opcode: 0x4C, format: OpcodeFormat::Three })
        } else if name == "SHIFTL"@ {
            Some(OpcodeDetail { opcode: 0xA4, format: OpcodeFormat::Two })
        } else if name == "SHIFTR"@ {
            Some(OpcodeDetail { opcode: 0xA8, format: OpcodeFormat::Two })
        } else if name == "SIO"@ {
            Some(OpcodeDetail { opcode: 0xF0, format: OpcodeFormat::One })
        } else if name == "SSK"@ {
            Some(OpcodeDetail { opcode: 0xEC, format: OpcodeFormat::Three })
        } else if name == "STA"@ {
            Some(OpcodeDetail { opcode: 0x0C, format: OpcodeFormat::Three })
        } else if name == "STB"@ {
            Some(OpcodeDetail { opcode: 0x78, format: OpcodeFormat::Three })
        } else if name == "STCH"@ {
            Some(OpcodeDetail { opcode: 0x54, format: OpcodeFormat::Three })
        } else if name == "STF"@ {
            Some(OpcodeDetail { opcode: 0x80, format: OpcodeFormat::Three })
        } else if name == "STI"@ {
            Some(OpcodeDetail { opcode: 0xD4, format: OpcodeFormat::Three })
        } else if name == "STL"@ {
            Some(OpcodeDetail { opcode: 0x14, format: OpcodeFormat::Three })
        } else if name == "STS"@ {
            Some(OpcodeDetail { opcode: 0x7C, format: OpcodeFormat::Three })
        } else if name == "STSW"@ {
            Some(OpcodeDetail { opcode: 0xE8, format: OpcodeFormat::Three })
        } else if name == "STT"@ {
            Some(OpcodeDetail { opcode: 0x84, format: OpcodeFormat::Three })
        } else if name == "STX"@ {
            Some(OpcodeDetail { opcode: 0x10, format: OpcodeFormat::Three })
        } else if name == "SUB"@ {
            Some(OpcodeDetail { opcode: 0x1C, format: OpcodeFormat::Three })
        } else if name == "SUBF"@ {
            Some(OpcodeDetail { opcode: 0x5C, format: OpcodeFormat::Three })
        } else if name == "SUBR"@ {
            Some(OpcodeDetail { opcode: 0x94, format: OpcodeFormat::Two })
        } else if name == "SVC"@ {
            Some(OpcodeDetail { opcode: 0xB0, format: OpcodeFormat::Two })
        } else if name == "TD"@ {
            Some(OpcodeDetail { opcode: 0xE0, format: OpcodeFormat::Three })
        } else if name == "TIO"@ {
            Some(OpcodeDetail { opcode: 0xF8, format: OpcodeFormat::One })
        } else if name == "TIX"@ {
            Some(OpcodeDetail { opcode: 0x2C, format: OpcodeFormat::Three })
        } else if name == "TIXR"@ {
            Some(OpcodeDetail { opcode: 0xB8, format: OpcodeFormat::Two })
        } else if name == "WD"@ {
            Some(OpcodeDetail { opcode: 0xDC, format: OpcodeFormat::Three })
        } else {
            None
        }
}

/// The register catalog: the number of a register name, or `None` for an
/// unknown one.
pub open spec fn spec_register_val(name: Seq<char>) -> Option<int> {
    if name == "A"@ { Some(0) }
    else if name == "X"@ { Some(1) }
    else if name == "L"@ { Some(2) }
    else if name == "B"@ { Some(3) }
    else if name == "S"@ { Some(4) }
    else if name == "T"@ { Some(5) }
    else if name == "F"@ { Some(6) }
    else if name == "PC"@ { Some(8) }
    else if name == "SW"@ { Some(9) }
    else { None }
}

/// The opcode-catalog entry for `opcode`.
pub fn catalog_opcode_detail(opcode: &str) -> (r: Result<OpcodeDetail, AsmError>)
    ensures
        match spec_opcode_detail(opcode@) {
            Some(d) => r == Ok::<OpcodeDetail, AsmError>(d),
            None => r matches Err(e) && e@ == crate::error::AsmErrorV::UnknownMnemonic(opcode@),
        },
{
        if str_eq(opcode, "ADD") {
            Ok(OpcodeDetail { opcode: 0x18, format: OpcodeFormat::Three })
        } else if str_eq(opcode, "ADDF") {
            Ok(OpcodeDetail { opcode: 0x58, format: OpcodeFormat::Three })
        } else if str_eq(opcode, "ADDR") {
            Ok(OpcodeDetail { opcode: 0x90, format: OpcodeFormat::Two })
        } else if str_eq(opcode, "AND") {
            Ok(OpcodeDetail { opcode: 0x40, format: OpcodeFormat::Three })
        } else if str_eq(opcode, "CLEAR") {
            Ok(OpcodeDetail { opcode: 0xB4, format: OpcodeFormat::Two })
        } else if str_eq(opcode, "COMP") {
            Ok(OpcodeDetail { opcode: 0x28, format: OpcodeFormat::Three })
        } else if str_eq(opcode, "COMPF") {
            Ok(OpcodeDetail { opcode: 0x88, format: OpcodeFormat::Three })
        } else if str_eq(opcode, "COMPR") {
            Ok(OpcodeDetail { opcode: 0xA0, format: OpcodeFormat::Two })
        } else if str_eq(opcode, "DIV") {
            Ok(OpcodeDetail { opcode: 0x24, format: OpcodeFormat::Three })
        } else if str_eq(opcode, "DIVF") {
            Ok(OpcodeDetail { opcode: 0x64, format: OpcodeFormat::Three })
        } else if str_eq(opcode, "DIVR") {
            Ok(OpcodeDetail { opcode: 0x9C, format: OpcodeFormat::Two })
        } else if str_eq(opcode, "FIX") {
            Ok(OpcodeDetail { opcode: 0xC4, format: OpcodeFormat::One })
        } else if str_eq(opcode, "FLOAT") {
            Ok(OpcodeDetail { opcode: 0xC0, format: OpcodeFormat::One })
        } else if str_eq(opcode, "HIO") {
            Ok(OpcodeDetail { opcode: 0xF4, format: OpcodeFormat::One })
        } else if str_eq(opcode, "J") {
            Ok(OpcodeDetail { opcode: 0x3C, format: OpcodeFormat::Three })
        } else if str_eq(opcode, "JEQ") {
            Ok(OpcodeDetail { opcode: 0x30, format: OpcodeFormat::Three })
        } else if str_eq(opcode, "JGT") {
            Ok(OpcodeDetail { opcode: 0x34, format: OpcodeFormat::Three })
        } else if str_eq(opcode, "JLT") {
            Ok(OpcodeDetail { opcode: 0x38, format: OpcodeFormat::Three })
        } else if str_eq(opcode, "JSUB") {
            Ok(OpcodeDetail { opcode: 0x48, format: OpcodeFormat::Three })
        } else if str_eq(opcode, "LDA") {
            Ok(OpcodeDetail { opcode: 0x00, format: OpcodeFormat::Three })
        } else if str_eq(opcode, "LDB") {
            Ok(OpcodeDetail { opcode: 0x68, format: OpcodeFormat::Three })
        } else if str_eq(opcode, "LDCH") {
            Ok(OpcodeDetail { opcode: 0x50, format: OpcodeFormat::Three })
        } else if str_eq(opcode, "LDF") {
            Ok(OpcodeDetail { opcode: 0x70, format: OpcodeFormat::Three })
        } else if str_eq(opcode, "LDL") {
            Ok(OpcodeDetail { opcode: 0x08, format: OpcodeFormat::Three })
        } else if str_eq(opcode, "LDS") {
            Ok(OpcodeDetail { opcode: 0x6C, format: OpcodeFormat::Three })
        } else if str_eq(opcode, "LDT") {
            Ok(OpcodeDetail { opcode: 0x74, format: OpcodeFormat::Three })
        } else if str_eq(opcode, "LDX") {
            Ok(OpcodeDetail { opcode: 0x04, format: OpcodeFormat::Three })
        } else if str_eq(opcode, "LPS") {
            Ok(OpcodeDetail { opcode: 0xD0, format: OpcodeFormat::Three })
        } else if str_eq(opcode, "MUL") {
            Ok(OpcodeDetail { opcode: 0x20, format: OpcodeFormat::Three })
        } else if str_eq(opcode, "MULF") {
            Ok(OpcodeDetail { opcode: 0x60, format: OpcodeFormat::Three })
        } else if str_eq(opcode, "MULR") {
            Ok(OpcodeDetail { opcode: 0x98, format: OpcodeFormat::Two })
        } else if str_eq(opcode, "NORM") {
            Ok(OpcodeDetail { opcode: 0xC8, format: OpcodeFormat::One })
        } else if str_eq(opcode, "OR") {
            Ok(OpcodeDetail { opcode: 0x44, format: OpcodeFormat::Three })
        } else if str_eq(opcode, "RD") {
            Ok(OpcodeDetail { opcode: 0xD8, format: OpcodeFormat::Three })
        } else if str_eq(opcode, "RMO") {
            Ok(OpcodeDetail { opcode: 0xAC, format: OpcodeFormat::Two })
        } else if str_eq(opcode, "RSUB") {
            Ok(OpcodeDetail { opcode: 0x4C, format: OpcodeFormat::Three })
        } else if str_eq(opcode, "SHIFTL") {
            Ok(OpcodeDetail { opcode: 0xA4, format: OpcodeFormat::Two })
        } else if str_eq(opcode, "SHIFTR") {
            Ok(OpcodeDetail { opcode: 0xA8, format: OpcodeFormat::Two })
        } else if str_eq(opcode, "SIO") {
            Ok(OpcodeDetail { opcode: 0xF0, format: OpcodeFormat::One })
        } else if str_eq(opcode, "SSK") {
            Ok(OpcodeDetail { opcode: 0xEC, format: OpcodeFormat::Three })
        } else if str_eq(opcode, "STA") {
            Ok(OpcodeDetail { opcode: 0x0C, format: OpcodeFormat::Three })
        } else if str_eq(opcode, "STB") {
            Ok(OpcodeDetail { opcode: 0x78, format: OpcodeFormat::Three })
        } else if str_eq(opcode, "STCH") {
            Ok(OpcodeDetail { opcode: 0x54, format: OpcodeFormat::Three })
        } else if str_eq(opcode, "STF") {
            Ok(OpcodeDetail { opcode: 0x80, format: OpcodeFormat::Three })
        } else if str_eq(opcode, "STI") {
            Ok(OpcodeDetail { opcode: 0xD4, format: OpcodeFormat::Three })
        } else if str_eq(opcode, "STL") {
            Ok(OpcodeDetail { opcode: 0x14, format: OpcodeFormat::Three })
        } else if str_eq(opcode, "STS") {
            Ok(OpcodeDetail { opcode: 0x7C, format: OpcodeFormat::Three })
        } else if str_eq(opcode, "STSW") {
            Ok(OpcodeDetail { opcode: 0xE8, format: OpcodeFormat::Three })
        } else if str_eq(opcode, "STT") {
            Ok(OpcodeDetail { opcode: 0x84, format: OpcodeFormat::Three })
        } else if str_eq(opcode, "STX") {
            Ok(OpcodeDetail { opcode: 0x10, format: OpcodeFormat::Three })
        } else if str_eq(opcode, "SUB") {
            Ok(OpcodeDetail { opcode: 0x1C, format: OpcodeFormat::Three })
        } else if str_eq(opcode, "SUBF") {
            Ok(OpcodeDetail { opcode: 0x5C, format: OpcodeFormat::Three })
        } else if str_eq(opcode, "SUBR") {
            Ok(OpcodeDetail { opcode: 0x94, format: OpcodeFormat::Two })
        } else if str_eq(opcode, "SVC") {
            Ok(OpcodeDetail { opcode: 0xB0, format: OpcodeFormat::Two })
        } else if str_eq(opcode, "TD") {
            Ok(OpcodeDetail { opcode: 0xE0, format: OpcodeFormat::Three })
        } else if str_eq(opcode, "TIO") {
            Ok(OpcodeDetail { opcode: 0xF8, format: OpcodeFormat::One })
        } else if str_eq(opcode, "TIX") {
            Ok(OpcodeDetail { opcode: 0x2C, format: OpcodeFormat::Three })
        } else if str_eq(opcode, "TIXR") {
            Ok(OpcodeDetail { opcode: 0xB8, format: OpcodeFormat::Two })
        } else if str_eq(opcode, "WD") {
            Ok(OpcodeDetail { opcode: 0xDC, format: OpcodeFormat::Three })
        } else {
            Err(AsmError::UnknownMnemonic(String::from_str(opcode)))
        }
}

/// A byte constant: the text of a `C'..'` form (one byte per character) or
/// the value of an `X'..'` form.
#[derive(Clone, Debug, Eq, PartialEq, Hash)]
pub enum Constant {
    SicString(String),
    Hex(i32),
}

/// The mathematical shape of a [`Constant`].
pub enum ConstantV {
    Str(Seq<char>),
    Hex(int),
}

impl View for Constant {
    type V = ConstantV;

    open spec fn view(&self) -> ConstantV {
        match self {
            Constant::SicString(s) => ConstantV::Str(s@),
            Constant::Hex(v) => ConstantV::Hex(*v as int),
        }
    }
}

/// True of a character inside the 7-bit ASCII range.
pub open spec fn ascii_char(c: char) -> bool {
    (c as u32) < 128
}

/// True when every character of `s` is ASCII.
pub open spec fn ascii_seq(s: Seq<char>) -> bool {
    forall|i: int| 0 <= i < s.len() ==> ascii_char(#[trigger] s[i])
}

/// Validity of a constant as the parser produces it: `C'..'` text is ASCII,
/// an `X'..'` value is a non-negative 31-bit number.
pub open spec fn constant_wf(c: ConstantV) -> bool {
    match c {
        ConstantV::Str(s) => ascii_seq(s),
        ConstantV::Hex(v) => (0 <= v && v <= 0x7FFF_FFFF),
    }
}

/// Size in bytes of a constant: one byte per character of a `C'..'` form,
/// one byte per two hexadecimal digits (rounded up) of an `X'..'` form.
pub open spec fn spec_const_len(c: ConstantV) -> nat {
    match c {
        ConstantV::Str(s) => s.len(),
        ConstantV::Hex(v) => (hex_repr(if v >= 0 { v as nat } else { 0 }).len() + 1) / 2,
    }
}

impl Constant {
    /// Size in bytes of this constant.
    pub fn get_len(&self) -> (r: usize)
        requires
            constant_wf(self@),
        ensures
            r == spec_const_len(self@),
    {
        match self {
            Constant::SicString(s) => s.as_str().unicode_len(),
            Constant::Hex(v) => {
                proof {
                    crate::utils::lemma_pow16_values();
                    crate::utils::lemma_hex_repr_len(*v as nat, 8);
                }
                let mut m: u32 = *v as u32;
                let mut d: usize = 1;
                while m >= 16
                    invariant
                        0 <= *v <= 0x7FFF_FFFF,
                        d >= 1,
                        d + hex_repr(m as nat).len() == hex_repr(*v as nat).len() + 1,
                        hex_repr(*v as nat).len() <= 8,
                    decreases m,
                {
                    m = m / 16;
                    d = d + 1;
                }
                (d + 1) / 2
            },
        }
    }
}

impl Constant {
    /// A copy with the same content. (The derived `Clone` carries no
    /// contract, so verified code copies through this method.)
    pub fn duplicate(&self) -> (r: Constant)
        ensures
            r@ == self@,
    {
        match self {
            Constant::SicString(s) => Constant::SicString(s.clone()),
            Constant::Hex(v) => Constant::Hex(*v),
        }
    }
}

/// Character-wise equality of constants.
pub fn const_eq(a: &Constant, b: &Constant) -> (r: bool)
    ensures
        r == (a@ == b@),
{
    match (a, b) {
        (Constant::SicString(x), Constant::SicString(y)) => str_eq(x.as_str(), y.as_str()),
        (Constant::Hex(x), Constant::Hex(y)) => x == y,
        _ => false,
    }
}

/// The assembly context: the label, constant and literal tables, filled in
/// pass one and read in pass two. Tables are association lists in insertion
/// order; pass one keeps their keys distinct.
#[derive(Debug)]
pub struct GlobalMap {
    pub label_map: Vec<(String, usize)>,
    pub constant_map: Vec<(String, Constant)>,
    pub literal_pool: Vec<Constant>,
    pub literal_map: Vec<(Constant, usize)>,
}

/// The mathematical shape of a [`GlobalMap`].
#[verifier::ext_equal]
pub struct GlobalMapV {
    pub label_map: Seq<(Seq<char>, int)>,
    pub constant_map: Seq<(Seq<char>, ConstantV)>,
    pub literal_pool: Seq<ConstantV>,
    pub literal_map: Seq<(ConstantV, int)>,
}

impl View for GlobalMap {
    type V = GlobalMapV;

    open spec fn view(&self) -> GlobalMapV {
        GlobalMapV {
            label_map: self.label_map@.map_values(|p: (String, usize)| (p.0@, p.1 as int)),
            constant_map: self.constant_map@.map_values(|p: (String, Constant)| (p.0@, p.1@)),
            literal_pool: self.literal_pool@.map_values(|c: Constant| c@),
            literal_map: self.literal_map@.map_values(|p: (Constant, usize)| (p.0@, p.1 as int)),
        }
    }
}

/// First match for a label name in an association list.
pub open spec fn find_label(entries: Seq<(Seq<char>, int)>, name: Seq<char>) -> Option<int>
    decreases entries.len(),
{
    if entries.len() == 0 {
        None
    } else if entries[0].0 == name {
        Some(entries[0].1)
    } else {
        find_label(entries.skip(1), name)
    }
}

/// First match for a literal in an association list.
pub open spec fn find_literal(entries: Seq<(ConstantV, int)>, c: ConstantV) -> Option<int>
    decreases entries.len(),
{
    if entries.len() == 0 {
        None
    } else if entries[0].0 == c {
        Some(entries[0].1)
    } else {
        find_literal(entries.skip(1), c)
    }
}

/// Address bounds that pass one guarantees: every label and every placed
/// literal lies inside the 20-bit SIC/XE address space.
pub open spec fn global_map_wf(g: GlobalMapV) -> bool {
    &&& forall|k: int| 0 <= k < g.label_map.len() ==> 0 <= (#[trigger] g.label_map[k]).1 <= 0xFFFFF
    &&& forall|k: int| 0 <= k < g.literal_map.len() ==> 0 <= (#[trigger] g.literal_map[k]).1 <= 0xFFFFF
}

/// Validity of every constant awaiting placement in the pool.
pub open spec fn pool_wf(g: GlobalMapV) -> bool {
    forall|k: int| 0 <= k < g.literal_pool.len() ==> constant_wf(#[trigger] g.literal_pool[k])
}

/// A label lookup misses exactly when no entry carries the name.
pub proof fn lemma_find_label_none(entries: Seq<(Seq<char>, int)>, name: Seq<char>)
    ensures
        (find_label(entries, name) is None) <==> (forall|k: int|
            0 <= k < entries.len() ==> (#[trigger] entries[k]).0 != name),
    decreases entries.len(),
{
    if entries.len() > 0 {
        lemma_find_label_none(entries.skip(1), name);
        assert(forall|k: int|
            0 <= k < entries.skip(1).len() ==> #[trigger] entries.skip(1)[k] == entries[k + 1]);
        if entries[0].0 != name {
            if forall|k: int| 0 <= k < entries.skip(1).len() ==> (#[trigger] entries.skip(1)[k]).0
                != name {
                assert forall|k: int| 0 <= k < entries.len() implies (#[trigger] entries[k]).0
                    != name by {
                    if k > 0 {
                        assert(entries.skip(1)[k - 1] == entries[k]);
                    }
                }
            }
        }
    }
}

/// Appending an entry leaves earlier hits unchanged and answers misses
/// from the new entry.
pub proof fn lemma_find_literal_extend(
    entries: Seq<(ConstantV, int)>,
    e: (ConstantV, int),
    c: ConstantV,
)
    ensures
        find_literal(entries.push(e), c) == (match find_literal(entries, c) {
            Some(v) => Some(v),
            None => if e.0 == c {
                Some(e.1)
            } else {
                None
            },
        }),
    decreases entries.len(),
{
    if entries.len() == 0 {
        assert(entries.push(e)[0] == e);
        assert(entries.push(e).skip(1) =~= Seq::<(ConstantV, int)>::empty());
        assert(find_literal(Seq::<(ConstantV, int)>::empty(), c) is None);
        assert(find_literal(entries, c) is None);
    } else {
        assert(entries.push(e)[0] == entries[0]);
        assert(entries.push(e).skip(1) =~= entries.skip(1).push(e));
        lemma_find_literal_extend(entries.skip(1), e, c);
        assert(find_literal(entries.push(e), c) == (if entries[0].0 == c {
            Some(entries[0].1)
        } else {
            find_literal(entries.skip(1).push(e), c)
        }));
    }
}

/// In a well-formed context, a found label address lies inside the address
/// space.
pub proof fn lemma_find_label_bound(entries: Seq<(Seq<char>, int)>, name: Seq<char>)
    requires
        forall|k: int| 0 <= k < entries.len() ==> 0 <= (#[trigger] entries[k]).1 <= 0xFFFFF,
    ensures
        match find_label(entries, name) {
            Some(v) => 0 <= v <= 0xFFFFF,
            None => true,
        },
    decreases entries.len(),
{
    if entries.len() > 0 && entries[0].0 != name {
        assert(forall|k: int|
            0 <= k < entries.skip(1).len() ==> 0 <= (#[trigger] entries.skip(1)[k]).1 <= 0xFFFFF);
        lemma_find_label_bound(entries.skip(1), name);
    }
}

/// In a well-formed context, a found literal address lies inside the
/// address space.
pub proof fn lemma_find_literal_bound(entries: Seq<(ConstantV, int)>, c: ConstantV)
    requires
        forall|k: int| 0 <= k < entries.len() ==> 0 <= (#[trigger] entries[k]).1 <= 0xFFFFF,
    ensures
        match find_literal(entries, c) {
            Some(v) => 0 <= v <= 0xFFFFF,
            None => true,
        },
    decreases entries.len(),
{
    if entries.len() > 0 && entries[0].0 != c {
        assert(forall|k: int|
            0 <= k < entries.skip(1).len() ==> 0 <= (#[trigger] entries.skip(1)[k]).1 <= 0xFFFFF);
        lemma_find_literal_bound(entries.skip(1), c);
    }
}

impl GlobalMap {
    /// A fresh context with all tables empty.
    pub fn init() -> (r: Self)
        ensures
            r@.label_map == Seq::<(Seq<char>, int)>::empty(),
            r@.constant_map == Seq::<(Seq<char>, ConstantV)>::empty(),
            r@.literal_pool == Seq::<ConstantV>::empty(),
            r@.literal_map == Seq::<(ConstantV, int)>::empty(),
            r.label_map@ == Seq::<(String, usize)>::empty(),
            r.constant_map@ == Seq::<(String, Constant)>::empty(),
            r.literal_pool@ == Seq::<Constant>::empty(),
            r.literal_map@ == Seq::<(Constant, usize)>::empty(),
    {
        let r = GlobalMap {
            label_map: Vec::new(),
            constant_map: Vec::new(),
            literal_pool: Vec::new(),
            literal_map: Vec::new(),
        };
        proof {
            assert(r@.label_map =~= Seq::<(Seq<char>, int)>::empty());
            assert(r@.constant_map =~= Seq::<(Seq<char>, ConstantV)>::empty());
            assert(r@.literal_pool =~= Seq::<ConstantV>::empty());
            assert(r@.literal_map =~= Seq::<(ConstantV, int)>::empty());
        }
        r
    }

    /// The register catalog's number for `reg`.
    pub fn get_reg_value(&self, reg: &str) -> (r: Result<i32, AsmError>)
        ensures
            match spec_register_val(reg@) {
                Some(v) => r == Ok::<i32, AsmError>(v as i32),
                None => r matches Err(e) && e@ == crate::error::AsmErrorV::UnknownRegister(reg@),
            },
    {
        if str_eq(reg, "A") { Ok(0) }
        else if str_eq(reg, "X") { Ok(1) }
        else if str_eq(reg, "L") { Ok(2) }
        else if str_eq(reg, "B") { Ok(3) }
        else if str_eq(reg, "S") { Ok(4) }
        else if str_eq(reg, "T") { Ok(5) }
        else if str_eq(reg, "F") { Ok(6) }
        else if str_eq(reg, "PC") { Ok(8) }
        else if str_eq(reg, "SW") { Ok(9) }
        else { Err(AsmError::UnknownRegister(String::from_str(reg))) }
    }

    /// The opcode-catalog entry for `opcode`.
    pub fn get_opcode_value(&self, opcode: &str) -> (r: Result<OpcodeDetail, AsmError>)
        ensures
            match spec_opcode_detail(opcode@) {
                Some(d) => r == Ok::<OpcodeDetail, AsmError>(d),
                None => r matches Err(e) && e@ == crate::error::AsmErrorV::UnknownMnemonic(
                    opcode@,
                ),
            },
    {
        catalog_opcode_detail(opcode)
    }

    /// The address recorded for a label, if any.
    pub fn get_label(&self, name: &str) -> (r: Option<usize>)
        ensures
            match r {
                Some(a) => find_label(self@.label_map, name@) == Some(a as int),
                None => find_label(self@.label_map, name@) is None,
            },
    {
        let ghost entries = self@.label_map;
        proof {
            assert(entries.skip(0) =~= entries);
        }
        let mut i: usize = 0;
        while i < self.label_map.len()
            invariant
                i <= self.label_map@.len(),
                entries == self@.label_map,
                entries.len() == self.label_map@.len(),
                find_label(entries, name@) == find_label(entries.skip(i as int), name@),
            decreases self.label_map@.len() - i,
        {
            proof {
                assert(entries.skip(i as int)[0] == entries[i as int]);
                assert(entries.skip(i as int).skip(1) =~= entries.skip(i as int + 1));
            }
            if str_eq(self.label_map[i].0.as_str(), name) {
                return Some(self.label_map[i].1);
            }
            i = i + 1;
        }
        proof {
            assert(entries.skip(entries.len() as int) =~= Seq::<(Seq<char>, int)>::empty());
        }
        None
    }

    /// The address recorded for a placed literal, if any.
    pub fn get_literal(&self, c: &Constant) -> (r: Option<usize>)
        ensures
            match r {
                Some(a) => find_literal(self@.literal_map, c@) == Some(a as int),
                None => find_literal(self@.literal_map, c@) is None,
            },
    {
        let ghost entries = self@.literal_map;
        proof {
            assert(entries.skip(0) =~= entries);
        }
        let mut i: usize = 0;
        while i < self.literal_map.len()
            invariant
                i <= self.literal_map@.len(),
                entries == self@.literal_map,
                entries.len() == self.literal_map@.len(),
                find_literal(entries, c@) == find_literal(entries.skip(i as int), c@),
            decreases self.literal_map@.len() - i,
        {
            proof {
                assert(entries.skip(i as int)[0] == entries[i as int]);
                assert(entries.skip(i as int).skip(1) =~= entries.skip(i as int + 1));
            }
            if const_eq(&self.literal_map[i].0, c) {
                return Some(self.literal_map[i].1);
            }
            i = i + 1;
        }
        proof {
            assert(entries.skip(entries.len() as int) =~= Seq::<(ConstantV, int)>::empty());
        }
        None
    }

    /// Whether the literal pool already holds `c`.
    pub fn pool_contains(&self, c: &Constant) -> (r: bool)
        ensures
            r == self@.literal_pool.contains(c@),
    {
        let mut i: usize = 0;
        while i < self.literal_pool.len()
            invariant
                i <= self.literal_pool@.len(),
                forall|j: int| 0 <= j < i ==> self@.literal_pool[j] != c@,
            decreases self.literal_pool@.len() - i,
        {
            if const_eq(&self.literal_pool[i], c) {
                proof {
                    assert(self@.literal_pool[i as int] == c@);
                }
                return true;
            }
            i = i + 1;
        }
        proof {
            assert(forall|j: int| 0 <= j < self@.literal_pool.len() ==> self@.literal_pool[j] != c@);
        }
        false
    }
}

} // verus!
