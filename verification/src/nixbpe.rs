//! The six addressing-mode flag bits `n i x b p e` of SIC/XE instruction
//! formats 3 and 4.

use vstd::prelude::*;

use crate::utils::chars_to_string;

verus! {

/// The character rendering of one flag bit.
pub open spec fn bit_char(b: bool) -> char {
    if b {
        '1'
    } else {
        '0'
    }
}

/// The numeric weight of one flag bit.
pub open spec fn bit_val(b: bool) -> nat {
    if b {
        1
    } else {
        0
    }
}

/// The addressing-mode flag field of instruction formats 3 and 4.
#[derive(Clone, Copy, Debug, PartialEq, Eq, Structural)]
pub struct Nixbpe {
    pub n: bool,
    pub i: bool,
    pub x: bool,
    pub b: bool,
    pub p: bool,
    pub e: bool,
}

impl Nixbpe {
    /// The six bits read as one number, `n` most significant.
    pub open spec fn spec_value(&self) -> nat {
        32 * bit_val(self.n) + 16 * bit_val(self.i) + 8 * bit_val(self.x) + 4 * bit_val(self.b)
            + 2 * bit_val(self.p) + bit_val(self.e)
    }

    /// The six bits as characters, `n` first.
    pub open spec fn spec_bits(&self) -> Seq<char> {
        seq![
            bit_char(self.n),
            bit_char(self.i),
            bit_char(self.x),
            bit_char(self.b),
            bit_char(self.p),
            bit_char(self.e),
        ]
    }

    /// All six flags clear.
    pub fn new() -> (r: Self)
        ensures
            r == (Nixbpe { n: false, i: false, x: false, b: false, p: false, e: false }),
    {
        Nixbpe { n: false, i: false, x: false, b: false, p: false, e: false }
    }

    /// Direct addressing: `n = i = 1`.
    pub fn set_direct(&mut self)
        ensures
            *final(self) == (Nixbpe { n: true, i: true, ..*old(self) }),
    {
        self.n = true;
        self.i = true;
    }

    /// Indirect addressing: `n = 1`, `i = 0`.
    pub fn set_indirect(&mut self)
        ensures
            *final(self) == (Nixbpe { n: true, i: false, ..*old(self) }),
    {
        self.n = true;
        self.i = false;
    }

    /// Immediate addressing: `n = 0`, `i = 1`.
    pub fn set_immediate(&mut self)
        ensures
            *final(self) == (Nixbpe { n: false, i: true, ..*old(self) }),
    {
        self.n = false;
        self.i = true;
    }

    /// Indexed addressing: `x = 1`.
    pub fn set_indexed(&mut self)
        ensures
            *final(self) == (Nixbpe { x: true, ..*old(self) }),
    {
        self.x = true;
    }

    /// Base-relative displacement: `b = 1`.
    pub fn set_base_relative(&mut self)
        ensures
            *final(self) == (Nixbpe { b: true, ..*old(self) }),
    {
        self.b = true;
    }

    /// PC-relative displacement: `p = 1`.
    pub fn set_pc_relative(&mut self)
        ensures
            *final(self) == (Nixbpe { p: true, ..*old(self) }),
    {
        self.p = true;
    }

    /// Extended (format-Four) instruction: `e = 1`.
    pub fn set_extended(&mut self)
        ensures
            *final(self) == (Nixbpe { e: true, ..*old(self) }),
    {
        self.e = true;
    }

    /// The six bits read as one number, `n` most significant.
    pub fn value(&self) -> (r: u32)
        ensures
            r as nat == self.spec_value(),
            r < 64,
    {
        let mut r: u32 = 0;
        if self.n {
            r = r + 32;
        }
        if self.i {
            r = r + 16;
        }
        if self.x {
            r = r + 8;
        }
        if self.b {
            r = r + 4;
        }
        if self.p {
            r = r + 2;
        }
        if self.e {
            r = r + 1;
        }
        r
    }

    /// The six bits as a string of `0`/`1` characters, `n` first.
    pub fn as_bin_string(&self) -> (r: String)
        ensures
            r@ == self.spec_bits(),
            crate::utils::bin_val(r@) == self.spec_value(),
    {
        let mut v: Vec<char> = Vec::new();
        v.push(if self.n { '1' } else { '0' });
        v.push(if self.i { '1' } else { '0' });
        v.push(if self.x { '1' } else { '0' });
        v.push(if self.b { '1' } else { '0' });
        v.push(if self.p { '1' } else { '0' });
        v.push(if self.e { '1' } else { '0' });
        proof {
            assert(v@ =~= self.spec_bits());
            lemma_bits_value(*self);
        }
        chars_to_string(&v)
    }
}

/// The bit characters of a flag field denote its numeric value.
pub proof fn lemma_bits_value(f: Nixbpe)
    ensures
        crate::utils::bin_val(f.spec_bits()) == f.spec_value(),
{
    let s = f.spec_bits();
    let s4 = s.drop_last();
    let s3 = s4.drop_last();
    let s2 = s3.drop_last();
    let s1 = s2.drop_last();
    let s0 = s1.drop_last();
    assert(s4 =~= seq![bit_char(f.n), bit_char(f.i), bit_char(f.x), bit_char(f.b), bit_char(f.p)]);
    assert(s3 =~= seq![bit_char(f.n), bit_char(f.i), bit_char(f.x), bit_char(f.b)]);
    assert(s2 =~= seq![bit_char(f.n), bit_char(f.i), bit_char(f.x)]);
    assert(s1 =~= seq![bit_char(f.n), bit_char(f.i)]);
    assert(s0 =~= seq![bit_char(f.n)]);
    assert(s0.drop_last() =~= Seq::<char>::empty());
    assert(crate::utils::bin_val(Seq::<char>::empty()) == 0);
    assert(crate::utils::bin_val(s0) == bit_val(f.n));
    assert(crate::utils::bin_val(s1) == 2 * bit_val(f.n) + bit_val(f.i));
    assert(crate::utils::bin_val(s2) == 4 * bit_val(f.n) + 2 * bit_val(f.i) + bit_val(f.x));
    assert(crate::utils::bin_val(s3) == 8 * bit_val(f.n) + 4 * bit_val(f.i) + 2 * bit_val(f.x)
        + bit_val(f.b));
    assert(crate::utils::bin_val(s4) == 16 * bit_val(f.n) + 8 * bit_val(f.i) + 4 * bit_val(f.x)
        + 2 * bit_val(f.b) + bit_val(f.p));
    assert(crate::utils::bin_val(s) == 32 * bit_val(f.n) + 16 * bit_val(f.i) + 8 * bit_val(f.x)
        + 4 * bit_val(f.b) + 2 * bit_val(f.p) + bit_val(f.e));
}

} // verus!
