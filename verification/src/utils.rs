//! Numeric and text utilities: radix conversion between integers and
//! fixed-width hexadecimal, binary and decimal digit strings.

use vstd::prelude::*;
use vstd::std_specs::iter::IteratorSpec;

verus! {

// ---------------------------------------------------------------------------
// Digit classification and numeric value of digit strings
// ---------------------------------------------------------------------------

/// True when `c` is a decimal digit `0..=9`.
pub open spec fn is_dec_digit(c: char) -> bool {
    48 <= c as u32 && c as u32 <= 57
}

/// Numeric value of a decimal digit (0 for other characters).
pub open spec fn dec_digit_val(c: char) -> nat {
    if is_dec_digit(c) {
        (c as u32 - 48) as nat
    } else {
        0
    }
}

/// True when `c` is a hexadecimal digit, upper or lower case.
pub open spec fn is_hex_digit(c: char) -> bool {
    is_dec_digit(c) || (65 <= c as u32 && c as u32 <= 70) || (97 <= c as u32 && c as u32 <= 102)
}

/// Numeric value of a hexadecimal digit (0 for other characters).
pub open spec fn hex_digit_val(c: char) -> nat {
    if is_dec_digit(c) {
        (c as u32 - 48) as nat
    } else if 65 <= c as u32 && c as u32 <= 70 {
        (c as u32 - 55) as nat
    } else if 97 <= c as u32 && c as u32 <= 102 {
        (c as u32 - 87) as nat
    } else {
        0
    }
}

/// True when `c` is `0` or `1`.
pub open spec fn is_bin_digit(c: char) -> bool {
    c == '0' || c == '1'
}

/// Numeric value of a binary digit (0 for other characters).
pub open spec fn bin_digit_val(c: char) -> nat {
    if c == '1' {
        1
    } else {
        0
    }
}

pub open spec fn all_dec_digits(s: Seq<char>) -> bool {
    forall|i: int| 0 <= i < s.len() ==> is_dec_digit(#[trigger] s[i])
}

pub open spec fn all_hex_digits(s: Seq<char>) -> bool {
    forall|i: int| 0 <= i < s.len() ==> is_hex_digit(#[trigger] s[i])
}

pub open spec fn all_bin_digits(s: Seq<char>) -> bool {
    forall|i: int| 0 <= i < s.len() ==> is_bin_digit(#[trigger] s[i])
}

/// Value of a decimal digit string, most significant digit first.
pub open spec fn dec_val(s: Seq<char>) -> nat
    decreases s.len(),
{
    if s.len() == 0 {
        0
    } else {
        dec_val(s.drop_last()) * 10 + dec_digit_val(s.last())
    }
}

/// Value of a hexadecimal digit string, most significant digit first.
pub open spec fn hex_val(s: Seq<char>) -> nat
    decreases s.len(),
{
    if s.len() == 0 {
        0
    } else {
        hex_val(s.drop_last()) * 16 + hex_digit_val(s.last())
    }
}

/// Value of a binary digit string, most significant digit first.
pub open spec fn bin_val(s: Seq<char>) -> nat
    decreases s.len(),
{
    if s.len() == 0 {
        0
    } else {
        bin_val(s.drop_last()) * 2 + bin_digit_val(s.last())
    }
}

// ---------------------------------------------------------------------------
// Rendering integers as digit strings
// ---------------------------------------------------------------------------

/// The upper-case hexadecimal digit for a value below 16.
pub open spec fn hex_digit_char(d: nat) -> char {
    if d == 0 { '0' }
    else if d == 1 { '1' }
    else if d == 2 { '2' }
    else if d == 3 { '3' }
    else if d == 4 { '4' }
    else if d == 5 { '5' }
    else if d == 6 { '6' }
    else if d == 7 { '7' }
    else if d == 8 { '8' }
    else if d == 9 { '9' }
    else if d == 10 { 'A' }
    else if d == 11 { 'B' }
    else if d == 12 { 'C' }
    else if d == 13 { 'D' }
    else if d == 14 { 'E' }
    else { 'F' }
}

/// Shortest upper-case hexadecimal rendering of `n` (a single `0` for zero).
pub open spec fn hex_repr(n: nat) -> Seq<char>
    decreases n,
{
    if n < 16 {
        seq![hex_digit_char(n)]
    } else {
        hex_repr(n / 16).push(hex_digit_char(n % 16))
    }
}

/// Shortest binary rendering of `n` (a single `0` for zero).
pub open spec fn bin_repr(n: nat) -> Seq<char>
    decreases n,
{
    if n < 2 {
        seq![if n == 0 { '0' } else { '1' }]
    } else {
        bin_repr(n / 2).push(if n % 2 == 0 { '0' } else { '1' })
    }
}

pub open spec fn repeat_zeros(n: nat) -> Seq<char> {
    Seq::new(n, |i: int| '0')
}

/// `s` left-padded with `0` up to length `len` (unchanged when already long enough).
pub open spec fn zero_pad(s: Seq<char>, len: nat) -> Seq<char> {
    if s.len() >= len {
        s
    } else {
        repeat_zeros((len - s.len()) as nat) + s
    }
}

/// Upper-case hexadecimal rendering of `n`, zero-padded to `len` digits.
pub open spec fn hex_string(n: nat, len: nat) -> Seq<char> {
    zero_pad(hex_repr(n), len)
}

/// Binary rendering of `n`, zero-padded to `len` digits.
pub open spec fn bin_string(n: nat, len: nat) -> Seq<char> {
    zero_pad(bin_repr(n), len)
}

/// 16 to the power `k`.
pub open spec fn pow16(k: nat) -> nat
    decreases k,
{
    if k == 0 {
        1
    } else {
        16 * pow16((k - 1) as nat)
    }
}

/// The unsigned 32-bit value with the same bit pattern as `v`.
pub open spec fn u32_of_i32(v: i32) -> nat {
    if v >= 0 {
        v as nat
    } else {
        (v + 0x1_0000_0000) as nat
    }
}

// ---------------------------------------------------------------------------
// Lemmas about digit strings
// ---------------------------------------------------------------------------

pub proof fn lemma_dec_val_extend(s: Seq<char>, i: int)
    requires
        0 <= i < s.len(),
    ensures
        dec_val(s.subrange(0, i + 1)) == dec_val(s.subrange(0, i)) * 10 + dec_digit_val(s[i]),
{
    assert(s.subrange(0, i + 1).drop_last() =~= s.subrange(0, i));
    assert(s.subrange(0, i + 1).last() == s[i]);
}

pub proof fn lemma_dec_val_prefix_le(s: Seq<char>, i: int)
    requires
        0 <= i <= s.len(),
    ensures
        dec_val(s.subrange(0, i)) <= dec_val(s),
    decreases s.len() - i,
{
    if i < s.len() {
        lemma_dec_val_extend(s, i);
        lemma_dec_val_prefix_le(s, i + 1);
    } else {
        assert(s.subrange(0, i) =~= s);
    }
}

pub proof fn lemma_hex_val_extend(s: Seq<char>, i: int)
    requires
        0 <= i < s.len(),
    ensures
        hex_val(s.subrange(0, i + 1)) == hex_val(s.subrange(0, i)) * 16 + hex_digit_val(s[i]),
{
    assert(s.subrange(0, i + 1).drop_last() =~= s.subrange(0, i));
    assert(s.subrange(0, i + 1).last() == s[i]);
}

pub proof fn lemma_hex_val_prefix_le(s: Seq<char>, i: int)
    requires
        0 <= i <= s.len(),
    ensures
        hex_val(s.subrange(0, i)) <= hex_val(s),
    decreases s.len() - i,
{
    if i < s.len() {
        lemma_hex_val_extend(s, i);
        lemma_hex_val_prefix_le(s, i + 1);
    } else {
        assert(s.subrange(0, i) =~= s);
    }
}

pub proof fn lemma_bin_val_extend(s: Seq<char>, i: int)
    requires
        0 <= i < s.len(),
    ensures
        bin_val(s.subrange(0, i + 1)) == bin_val(s.subrange(0, i)) * 2 + bin_digit_val(s[i]),
{
    assert(s.subrange(0, i + 1).drop_last() =~= s.subrange(0, i));
    assert(s.subrange(0, i + 1).last() == s[i]);
}

pub proof fn lemma_bin_val_prefix_le(s: Seq<char>, i: int)
    requires
        0 <= i <= s.len(),
    ensures
        bin_val(s.subrange(0, i)) <= bin_val(s),
    decreases s.len() - i,
{
    if i < s.len() {
        lemma_bin_val_extend(s, i);
        lemma_bin_val_prefix_le(s, i + 1);
    } else {
        assert(s.subrange(0, i) =~= s);
    }
}

/// A value below `16^k` needs at most `k` hexadecimal digits.
pub proof fn lemma_hex_repr_len(n: nat, k: nat)
    requires
        k >= 1,
        n < pow16(k),
    ensures
        1 <= hex_repr(n).len() <= k,
    decreases n,
{
    if n < 16 {
    } else {
        assert(pow16(k) == 16 * pow16((k - 1) as nat));
        assert(n / 16 < pow16((k - 1) as nat));
        lemma_hex_repr_len(n / 16, (k - 1) as nat);
    }
}

/// A value below `16^k` renders as exactly `k` digits when padded to `k`.
pub proof fn lemma_hex_string_len(n: nat, k: nat)
    requires
        k >= 1,
        n < pow16(k),
    ensures
        hex_string(n, k).len() == k,
{
    lemma_hex_repr_len(n, k);
}

pub proof fn lemma_pow16_values()
    ensures
        pow16(1) == 0x10,
        pow16(2) == 0x100,
        pow16(3) == 0x1000,
        pow16(4) == 0x10000,
        pow16(5) == 0x10_0000,
        pow16(6) == 0x100_0000,
        pow16(7) == 0x1000_0000,
        pow16(8) == 0x1_0000_0000,
{
    assert(pow16(0) == 1);
    assert(pow16(1) == 0x10);
    assert(pow16(2) == 0x100);
    assert(pow16(3) == 0x1000);
    assert(pow16(4) == 0x10000);
    assert(pow16(5) == 0x10_0000);
    assert(pow16(6) == 0x100_0000);
    assert(pow16(7) == 0x1000_0000);
    assert(pow16(8) == 0x1_0000_0000);
}

// ---------------------------------------------------------------------------
// Bridging between `String` and `Vec<char>`
// ---------------------------------------------------------------------------

/// Relies on `String: FromIterator<char>`: collecting characters yields the
/// string of exactly those characters, in order.
#[verifier::external_body]
pub fn chars_to_string(v: &Vec<char>) -> (s: String)
    ensures
        s@ == v@,
{
    v.iter().collect()
}

/// The characters of `s` collected into a vector, in order.
pub fn str_chars(s: &str) -> (v: Vec<char>)
    ensures
        v@ == s@,
{
    broadcast use vstd::string::group_string_axioms;

    let mut it = s.chars();
    let mut v: Vec<char> = Vec::new();
    loop
        invariant
            it.obeys_prophetic_iter_laws(),
            it.decrease() is Some,
            v@ + it.remaining() == s@,
        ensures
            v@ == s@,
        decreases it.decrease()->Some_0,
    {
        let ghost itb = it;
        let ghost vb = v@;
        match it.next() {
            Some(c) => {
                v.push(c);
                proof {
                    assert(itb.remaining().len() > 0);
                    assert(c == itb.remaining()[0]);
                    assert(it.remaining() == itb.remaining().drop_first());
                    assert(v@ + it.remaining() =~= s@);
                }
            },
            None => {
                proof {
                    assert(v@ =~= s@);
                }
                break;
            },
        }
    }
    v
}

/// Character-wise string equality.
pub fn str_eq(a: &str, b: &str) -> (r: bool)
    ensures
        r == (a@ == b@),
{
    let la: usize = a.unicode_len();
    let lb: usize = b.unicode_len();
    if la != lb {
        return false;
    }
    let mut i: usize = 0;
    while i < la
        invariant
            a@.len() == la,
            b@.len() == lb,
            la == lb,
            i <= la,
            forall|j: int| 0 <= j < i ==> a@[j] == b@[j],
        decreases la - i,
    {
        if a.get_char(i) != b.get_char(i) {
            return false;
        }
        i = i + 1;
    }
    proof {
        assert(a@ =~= b@);
    }
    true
}

// ---------------------------------------------------------------------------
// Executable conversions
// ---------------------------------------------------------------------------

/// True when `s` parses as a (possibly signed) 32-bit decimal integer.
pub fn is_valid_decimal_string(s: &str) -> (r: bool)
    ensures
        r == spec_is_i32_decimal(s@),
{
    let v = str_chars(s);
    proof {
        assert(s@.subrange(0, s@.len() as int) =~= s@);
    }
    if v.len() == 0 {
        return false;
    }
    let first = v[0];
    if first == '-' {
        if v.len() == 1 {
            false
        } else {
            dec_str_fits(&v, 1, 0x8000_0000)
        }
    } else if first == '+' {
        if v.len() == 1 {
            false
        } else {
            dec_str_fits(&v, 1, 0x7FFF_FFFF)
        }
    } else {
        dec_str_fits(&v, 0, 0x7FFF_FFFF)
    }
}

/// True when `s` parses as a signed 32-bit decimal integer.
pub open spec fn spec_is_i32_decimal(s: Seq<char>) -> bool {
    if s.len() == 0 {
        false
    } else if s[0] == '-' {
        let b = s.subrange(1, s.len() as int);
        b.len() > 0 && all_dec_digits(b) && dec_val(b) <= 0x8000_0000
    } else if s[0] == '+' {
        let b = s.subrange(1, s.len() as int);
        b.len() > 0 && all_dec_digits(b) && dec_val(b) <= 0x7FFF_FFFF
    } else {
        all_dec_digits(s) && dec_val(s) <= 0x7FFF_FFFF
    }
}

/// True when `s` parses as an unsigned decimal integer that fits in `usize`.
pub open spec fn spec_is_usize_decimal(s: Seq<char>) -> bool {
    if s.len() == 0 {
        false
    } else if s[0] == '+' {
        let b = s.subrange(1, s.len() as int);
        b.len() > 0 && all_dec_digits(b) && dec_val(b) <= usize::MAX
    } else {
        all_dec_digits(s) && dec_val(s) <= usize::MAX
    }
}

/// The value denoted by a string accepted by [`spec_is_usize_decimal`].
pub open spec fn spec_usize_decimal_val(s: Seq<char>) -> nat {
    if s.len() > 0 && s[0] == '+' {
        dec_val(s.subrange(1, s.len() as int))
    } else {
        dec_val(s)
    }
}

/// Whether the decimal digits of `v` from index `from` on denote a value
/// at most `limit`.
fn dec_str_fits(v: &Vec<char>, from: usize, limit: u64) -> (r: bool)
    requires
        from <= v@.len(),
        limit <= 0x1_0000_0000,
    ensures
        r == {
            let b = v@.subrange(from as int, v@.len() as int);
            all_dec_digits(b) && dec_val(b) <= limit
        },
{
    let ghost b = v@.subrange(from as int, v@.len() as int);
    let mut acc: u64 = 0;
    let mut i: usize = from;
    while i < v.len()
        invariant
            from <= i <= v@.len(),
            limit <= 0x1_0000_0000,
            b == v@.subrange(from as int, v@.len() as int),
            acc == dec_val(b.subrange(0, i - from)),
            acc <= limit,
            all_dec_digits(b.subrange(0, i - from)),
        decreases v@.len() - i,
    {
        let c = v[i];
        let cu: u32 = c as u32;
        proof {
            assert(b[i - from] == v@[i as int]);
            lemma_dec_val_extend(b, i - from);
        }
        if cu < 48 || cu > 57 {
            proof {
                assert(!is_dec_digit(b[i - from]));
            }
            return false;
        }
        let d: u64 = (cu - 48) as u64;
        let next: u64 = acc * 10 + d;
        proof {
            assert(next == dec_val(b.subrange(0, i - from + 1)));
            assert(forall|j: int| 0 <= j < i - from + 1 ==> is_dec_digit(#[trigger] b.subrange(0, i - from + 1)[j]));
        }
        if next > limit {
            proof {
                lemma_dec_val_prefix_le(b, i - from + 1);
            }
            return false;
        }
        acc = next;
        i = i + 1;
    }
    proof {
        assert(b.subrange(0, v@.len() - from) =~= b);
    }
    true
}

/// Parses an unsigned decimal string (optionally `+`-signed) as `usize`.
pub fn string_to_usize(s: &str) -> (r: usize)
    requires
        spec_is_usize_decimal(s@),
    ensures
        r == spec_usize_decimal_val(s@),
{
    let v = str_chars(s);
    let from: usize = if v.len() > 0 && v[0] == '+' { 1 } else { 0 };
    let ghost b = v@.subrange(from as int, v@.len() as int);
    proof {
        if from == 1 {
            assert(b =~= s@.subrange(1, s@.len() as int));
        } else {
            assert(b =~= s@);
        }
    }
    let mut acc: usize = 0;
    let mut i: usize = from;
    while i < v.len()
        invariant
            from <= i <= v@.len(),
            b == v@.subrange(from as int, v@.len() as int),
            all_dec_digits(b),
            dec_val(b) <= usize::MAX,
            acc == dec_val(b.subrange(0, i - from)),
        decreases v@.len() - i,
    {
        let c = v[i];
        proof {
            assert(b[i - from] == v@[i as int]);
            assert(is_dec_digit(b[i - from]));
            lemma_dec_val_extend(b, i - from);
            lemma_dec_val_prefix_le(b, i - from + 1);
        }
        let d: usize = ((c as u32) - 48) as usize;
        acc = acc * 10 + d;
        i = i + 1;
    }
    proof {
        assert(b.subrange(0, v@.len() - from) =~= b);
    }
    acc
}

/// Parses an unsigned hexadecimal string (digits `0-9A-Fa-f`) as `i32`.
pub fn hex_string_to_i32(s: &str) -> (r: i32)
    requires
        s@.len() > 0,
        all_hex_digits(s@),
        hex_val(s@) <= 0x7FFF_FFFF,
    ensures
        r == hex_val(s@),
{
    let v = str_chars(s);
    let mut acc: u32 = 0;
    let mut i: usize = 0;
    while i < v.len()
        invariant
            i <= v@.len(),
            v@ == s@,
            all_hex_digits(s@),
            hex_val(s@) <= 0x7FFF_FFFF,
            acc == hex_val(s@.subrange(0, i as int)),
        decreases v@.len() - i,
    {
        let c = v[i];
        proof {
            assert(is_hex_digit(s@[i as int]));
            lemma_hex_val_extend(s@, i as int);
            lemma_hex_val_prefix_le(s@, i as int + 1);
        }
        let cu: u32 = c as u32;
        let d: u32 = if cu >= 97 { cu - 87 } else if cu >= 65 { cu - 55 } else { cu - 48 };
        acc = acc * 16 + d;
        i = i + 1;
    }
    proof {
        assert(s@.subrange(0, s@.len() as int) =~= s@);
    }
    acc as i32
}

/// Parses a binary string (digits `0`/`1`) as `i32`.
pub fn bin_string_to_i32(s: &str) -> (r: i32)
    requires
        s@.len() > 0,
        all_bin_digits(s@),
        bin_val(s@) <= 0x7FFF_FFFF,
    ensures
        r == bin_val(s@),
{
    let v = str_chars(s);
    let mut acc: u32 = 0;
    let mut i: usize = 0;
    while i < v.len()
        invariant
            i <= v@.len(),
            v@ == s@,
            all_bin_digits(s@),
            bin_val(s@) <= 0x7FFF_FFFF,
            acc == bin_val(s@.subrange(0, i as int)),
        decreases v@.len() - i,
    {
        let c = v[i];
        proof {
            assert(is_bin_digit(s@[i as int]));
            lemma_bin_val_extend(s@, i as int);
            lemma_bin_val_prefix_le(s@, i as int + 1);
        }
        let d: u32 = if c == '1' { 1 } else { 0 };
        acc = acc * 2 + d;
        i = i + 1;
    }
    proof {
        assert(s@.subrange(0, s@.len() as int) =~= s@);
    }
    acc as i32
}

/// The upper-case hexadecimal digit character for `d`.
fn hex_digit_char_of(d: u32) -> (c: char)
    requires
        d < 16,
    ensures
        c == hex_digit_char(d as nat),
{
    if d == 0 { '0' }
    else if d == 1 { '1' }
    else if d == 2 { '2' }
    else if d == 3 { '3' }
    else if d == 4 { '4' }
    else if d == 5 { '5' }
    else if d == 6 { '6' }
    else if d == 7 { '7' }
    else if d == 8 { '8' }
    else if d == 9 { '9' }
    else if d == 10 { 'A' }
    else if d == 11 { 'B' }
    else if d == 12 { 'C' }
    else if d == 13 { 'D' }
    else if d == 14 { 'E' }
    else { 'F' }
}

/// Appends the shortest hexadecimal rendering of `n` to `v`.
fn push_hex_digits(v: &mut Vec<char>, n: u32)
    ensures
        final(v)@ == old(v)@ + hex_repr(n as nat),
    decreases n,
{
    if n < 16 {
        v.push(hex_digit_char_of(n));
        proof {
            assert(final(v)@ =~= old(v)@ + hex_repr(n as nat));
        }
    } else {
        push_hex_digits(v, n / 16);
        v.push(hex_digit_char_of(n % 16));
        proof {
            assert(final(v)@ =~= old(v)@ + hex_repr(n as nat));
        }
    }
}

/// Appends the shortest binary rendering of `n` to `v`.
fn push_bin_digits(v: &mut Vec<char>, n: u32)
    ensures
        final(v)@ == old(v)@ + bin_repr(n as nat),
    decreases n,
{
    if n < 2 {
        v.push(if n == 0 { '0' } else { '1' });
        proof {
            assert(final(v)@ =~= old(v)@ + bin_repr(n as nat));
        }
    } else {
        push_bin_digits(v, n / 2);
        v.push(if n % 2 == 0 { '0' } else { '1' });
        proof {
            assert(final(v)@ =~= old(v)@ + bin_repr(n as nat));
        }
    }
}

/// The unsigned 32-bit reinterpretation of `val`.
fn u32_bits_of_i32(val: i32) -> (u: u32)
    ensures
        u as nat == u32_of_i32(val),
{
    if val >= 0 {
        val as u32
    } else {
        ((val as i64) + 0x1_0000_0000) as u32
    }
}

/// Left-pads `digits` with `0` to `len` characters.
fn pad_digits(digits: Vec<char>, len: usize) -> (out: Vec<char>)
    ensures
        out@ == zero_pad(digits@, len as nat),
{
    if digits.len() >= len {
        proof {
            assert(zero_pad(digits@, len as nat) == digits@);
        }
        digits
    } else {
        let mut out: Vec<char> = Vec::new();
        let pad: usize = len - digits.len();
        let mut k: usize = 0;
        while k < pad
            invariant
                k <= pad,
                out@ =~= repeat_zeros(k as nat),
            decreases pad - k,
        {
            out.push('0');
            proof {
                assert(out@ =~= repeat_zeros((k + 1) as nat));
            }
            k = k + 1;
        }
        let mut j: usize = 0;
        while j < digits.len()
            invariant
                j <= digits@.len(),
                out@ =~= repeat_zeros(pad as nat) + digits@.subrange(0, j as int),
            decreases digits@.len() - j,
        {
            out.push(digits[j]);
            proof {
                assert(out@ =~= repeat_zeros(pad as nat) + digits@.subrange(0, j + 1));
            }
            j = j + 1;
        }
        proof {
            assert(digits@.subrange(0, digits@.len() as int) =~= digits@);
            assert(out@ =~= zero_pad(digits@, len as nat));
        }
        out
    }
}

/// Renders `val` as upper-case hexadecimal, zero-padded to at least `len`
/// digits.
pub fn u32_to_hex_string(val: u32, len: usize) -> (r: String)
    ensures
        r@ == hex_string(val as nat, len as nat),
{
    let mut digits: Vec<char> = Vec::new();
    push_hex_digits(&mut digits, val);
    let out = pad_digits(digits, len);
    chars_to_string(&out)
}

/// Renders `val` (reinterpreted as unsigned 32-bit) as upper-case
/// hexadecimal, zero-padded to at least `len` digits.
pub fn i32_to_hex_string(val: i32, len: usize) -> (r: String)
    ensures
        r@ == hex_string(u32_of_i32(val), len as nat),
{
    let u = u32_bits_of_i32(val);
    u32_to_hex_string(u, len)
}

/// Renders `val` (reinterpreted as unsigned 32-bit) as binary, zero-padded
/// to at least `len` digits.
pub fn i32_to_bin_string(val: i32, len: usize) -> (r: String)
    ensures
        r@ == bin_string(u32_of_i32(val), len as nat),
{
    let u = u32_bits_of_i32(val);
    let mut digits: Vec<char> = Vec::new();
    push_bin_digits(&mut digits, u);
    let out = pad_digits(digits, len);
    chars_to_string(&out)
}

// ---------------------------------------------------------------------------
// Splitting on a separator character
// ---------------------------------------------------------------------------

/// Index of the first occurrence of `c` in `s`, or `-1`.
pub open spec fn index_of_char(s: Seq<char>, c: char) -> int
    decreases s.len(),
{
    if s.len() == 0 {
        -1
    } else if s[0] == c {
        0
    } else {
        let r = index_of_char(s.skip(1), c);
        if r == -1 {
            -1
        } else {
            r + 1
        }
    }
}

/// The fields of `s` split on `sep`; empty fields are kept.
pub open spec fn spec_split(s: Seq<char>, sep: char) -> Seq<Seq<char>>
    decreases s.len(),
{
    let k = index_of_char(s, sep);
    if k < 0 || k >= s.len() {
        seq![s]
    } else {
        seq![s.subrange(0, k)] + spec_split(s.subrange(k + 1, s.len() as int), sep)
    }
}

pub proof fn lemma_index_of_char_is(s: Seq<char>, c: char, i: int)
    requires
        0 <= i < s.len(),
        s[i] == c,
        forall|j: int| 0 <= j < i ==> s[j] != c,
    ensures
        index_of_char(s, c) == i,
    decreases i,
{
    if i == 0 {
    } else {
        assert(s[0] != c);
        assert forall|j: int| 0 <= j < i - 1 implies s.skip(1)[j] != c by {
            assert(s.skip(1)[j] == s[j + 1]);
        }
        assert(s.skip(1)[i - 1] == s[i]);
        lemma_index_of_char_is(s.skip(1), c, i - 1);
    }
}

pub proof fn lemma_index_of_char_none(s: Seq<char>, c: char)
    requires
        forall|j: int| 0 <= j < s.len() ==> s[j] != c,
    ensures
        index_of_char(s, c) == -1,
    decreases s.len(),
{
    if s.len() > 0 {
        assert forall|j: int| 0 <= j < s.skip(1).len() implies s.skip(1)[j] != c by {
            assert(s.skip(1)[j] == s[j + 1]);
        }
        lemma_index_of_char_none(s.skip(1), c);
    }
}

/// The characters of `v` from `from` (inclusive) to `to` (exclusive), as a
/// string.
pub fn substring_of(v: &Vec<char>, from: usize, to: usize) -> (s: String)
    requires
        from <= to <= v@.len(),
    ensures
        s@ == v@.subrange(from as int, to as int),
{
    let mut out: Vec<char> = Vec::new();
    let mut j: usize = from;
    while j < to
        invariant
            from <= j <= to <= v@.len(),
            out@ =~= v@.subrange(from as int, j as int),
        decreases to - j,
    {
        out.push(v[j]);
        proof {
            assert(out@ =~= v@.subrange(from as int, j + 1));
        }
        j = j + 1;
    }
    chars_to_string(&out)
}

/// Appends the fields of `v@[from..]` split on `sep` to `out`.
fn split_into(v: &Vec<char>, from: usize, sep: char, out: &mut Vec<String>)
    requires
        from <= v@.len(),
    ensures
        final(out)@.map_values(|t: String| t@) == old(out)@.map_values(|t: String| t@)
            + spec_split(v@.subrange(from as int, v@.len() as int), sep),
    decreases v@.len() - from,
{
    let ghost tail = v@.subrange(from as int, v@.len() as int);
    let mut k: usize = from;
    while k < v.len() && v[k] != sep
        invariant
            from <= k <= v@.len(),
            forall|j: int| from <= j < k ==> v@[j] != sep,
        decreases v@.len() - k,
    {
        k = k + 1;
    }
    if k == v.len() {
        proof {
            assert forall|j: int| 0 <= j < tail.len() implies tail[j] != sep by {
                assert(tail[j] == v@[from + j]);
            }
            lemma_index_of_char_none(tail, sep);
        }
        let t = substring_of(v, from, k);
        let ghost prev = out@;
        out.push(t);
        proof {
            assert(t@ =~= tail);
            assert(out@.map_values(|q: String| q@) =~= prev.map_values(|q: String| q@)
                + spec_split(tail, sep));
        }
    } else {
        proof {
            assert(tail[k - from] == v@[k as int]);
            assert forall|j: int| 0 <= j < k - from implies tail[j] != sep by {
                assert(tail[j] == v@[from + j]);
            }
            lemma_index_of_char_is(tail, sep, k - from);
        }
        let t = substring_of(v, from, k);
        let ghost prev = out@;
        out.push(t);
        proof {
            assert(t@ =~= tail.subrange(0, k - from));
            assert(prev.push(t).map_values(|q: String| q@) =~= prev.map_values(|q: String| q@)
                + seq![tail.subrange(0, k - from)]);
        }
        split_into(v, k + 1, sep, out);
        proof {
            assert(tail.subrange(k - from + 1, tail.len() as int) =~= v@.subrange(
                k + 1,
                v@.len() as int,
            ));
            assert(out@.map_values(|q: String| q@) =~= prev.map_values(|q: String| q@)
                + spec_split(tail, sep));
        }
    }
}

/// The fields of `s` split on `sep`; empty fields are kept.
pub fn split_string(s: &str, sep: char) -> (r: Vec<String>)
    ensures
        r@.map_values(|t: String| t@) == spec_split(s@, sep),
        r@.len() >= 1,
{
    let v = str_chars(s);
    let mut out: Vec<String> = Vec::new();
    split_into(&v, 0, sep, &mut out);
    proof {
        assert(v@.subrange(0, v@.len() as int) =~= s@);
        assert(Seq::<String>::empty().map_values(|t: String| t@) =~= Seq::<Seq<char>>::empty());
        lemma_spec_split_len(s@, sep);
        assert(out@.map_values(|t: String| t@).len() == out@.len());
    }
    out
}

/// A split has at least one field.
pub proof fn lemma_spec_split_len(s: Seq<char>, sep: char)
    ensures
        spec_split(s, sep).len() >= 1,
{
}

/// How an executable `Result` over viewable types relates to its
/// mathematical counterpart.
pub open spec fn matches_result<T: View, E: View>(r: Result<T, E>, s: Result<T::V, E::V>) -> bool {
    match (r, s) {
        (Ok(x), Ok(o)) => x@ == o,
        (Err(x), Err(e)) => x@ == e,
        _ => false,
    }
}

/// The `n`-th character of `word`, counting from 1.
pub fn get_nth_char(word: &str, n: usize) -> (r: Result<char, String>)
    requires
        n >= 1,
    ensures
        match r {
            Ok(c) => n <= word@.len() && c == word@[n - 1],
            Err(m) => word@.len() < n && (word@.len() == 0 ==> m@ == "Empty string"@)
                && (word@.len() > 0 ==> m@ == "Out of bounds"@),
        },
{
    let len: usize = word.unicode_len();
    if len == 0 {
        Err(String::from_str("Empty string"))
    } else if len < n {
        Err(String::from_str("Out of bounds"))
    } else {
        Ok(word.get_char(n - 1))
    }
}

} // verus!
