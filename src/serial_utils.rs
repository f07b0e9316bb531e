//! Fixed-width ASCII renderings of unsigned integers, for diagnostics sent
//! over the serial line.

use vstd::prelude::*;

verus! {

/// ASCII code of `'0'`.
pub const ASCII_ZERO: u8 = 0x30;

/// ASCII code of `'A'`.
pub const ASCII_UPPER_A: u8 = 0x41;

pub open spec fn pow10(k: nat) -> nat
    decreases k,
{
    if k == 0 {
        1
    } else {
        10 * pow10((k - 1) as nat)
    }
}

pub open spec fn pow16(k: nat) -> nat
    decreases k,
{
    if k == 0 {
        1
    } else {
        16 * pow16((k - 1) as nat)
    }
}

/// The last `n` decimal digits of `v` as ASCII, most significant first,
/// padded with `'0'`.
pub open spec fn dec_text(v: nat, n: nat) -> Seq<u8> {
    Seq::new(n, |j: int| (ASCII_ZERO + (v / pow10((n - 1 - j) as nat)) % 10) as u8)
}

/// ASCII character of a hexadecimal digit, upper case.
pub open spec fn hex_char(d: nat) -> u8 {
    if d < 10 {
        (ASCII_ZERO + d) as u8
    } else {
        (ASCII_UPPER_A + d - 10) as u8
    }
}

/// The last `n` hexadecimal digits of `v` as ASCII, most significant first.
pub open spec fn hex_text(v: nat, n: nat) -> Seq<u8> {
    Seq::new(n, |j: int| hex_char((v / pow16((n - 1 - j) as nat)) % 16))
}

proof fn lemma_pow10_step(v: nat, k: nat)
    ensures
        pow10(k) > 0,
        v / pow10(k) / 10 == v / pow10(k + 1),
{
    lemma_pow10_positive(k);
    vstd::arithmetic::div_mod::lemma_div_denominator(v as int, pow10(k) as int, 10);
    assert(pow10(k + 1) == pow10(k) * 10) by (nonlinear_arith)
        requires
            pow10(k + 1) == 10 * pow10(k),
    ;
}

proof fn lemma_pow10_positive(k: nat)
    ensures
        pow10(k) > 0,
    decreases k,
{
    if k > 0 {
        lemma_pow10_positive((k - 1) as nat);
    }
}

/// Three decimal digits of `val`.
pub fn byte_to_dec(val: u8) -> (r: [u8; 3])
    ensures
        r@ == dec_text(val as nat, 3),
{
    let mut out_buf: [u8; 3] = [0; 3];
    let mut over_ten: u8 = val;
    let mut i: usize = 0;
    assert(pow10(0) == 1);
    while i < 3
        invariant
            i <= 3,
            over_ten as nat == val as nat / pow10(i as nat),
            forall|j: int| 3 - i <= j < 3 ==> out_buf@[j] == dec_text(val as nat, 3)[j],
        decreases 3 - i,
    {
        let next = over_ten / 10;
        proof {
            lemma_pow10_step(val as nat, i as nat);
        }
        out_buf[2 - i] = (over_ten - next * 10) + ASCII_ZERO;
        over_ten = next;
        i = i + 1;
    }
    assert(out_buf@ =~= dec_text(val as nat, 3));
    out_buf
}

/// Five decimal digits of `val`.
pub fn u16_to_dec(val: u16) -> (r: [u8; 5])
    ensures
        r@ == dec_text(val as nat, 5),
{
    let mut out_buf: [u8; 5] = [0; 5];
    let mut over_ten: u16 = val;
    let mut i: usize = 0;
    assert(pow10(0) == 1);
    while i < 5
        invariant
            i <= 5,
            over_ten as nat == val as nat / pow10(i as nat),
            forall|j: int| 5 - i <= j < 5 ==> out_buf@[j] == dec_text(val as nat, 5)[j],
        decreases 5 - i,
    {
        let next = over_ten / 10;
        proof {
            lemma_pow10_step(val as nat, i as nat);
        }
        out_buf[4 - i] = ((over_ten - next * 10) as u8) + ASCII_ZERO;
        over_ten = next;
        i = i + 1;
    }
    assert(out_buf@ =~= dec_text(val as nat, 5));
    out_buf
}

/// The last nine decimal digits of `val`: a value of ten digits loses its
/// leading one.
pub fn u32_to_dec(val: u32) -> (r: [u8; 9])
    ensures
        r@ == dec_text(val as nat, 9),
{
    let mut out_buf: [u8; 9] = [0; 9];
    let mut over_ten: u32 = val;
    let mut i: usize = 0;
    assert(pow10(0) == 1);
    while i < 9
        invariant
            i <= 9,
            over_ten as nat == val as nat / pow10(i as nat),
            forall|j: int| 9 - i <= j < 9 ==> out_buf@[j] == dec_text(val as nat, 9)[j],
        decreases 9 - i,
    {
        let next = over_ten / 10;
        proof {
            lemma_pow10_step(val as nat, i as nat);
        }
        out_buf[8 - i] = ((over_ten - next * 10) as u8) + ASCII_ZERO;
        over_ten = next;
        i = i + 1;
    }
    assert(out_buf@ =~= dec_text(val as nat, 9));
    out_buf
}

/// ASCII character of the hexadecimal digit `d`.
fn hex_lookup(d: u32) -> (r: u8)
    requires
        d < 16,
    ensures
        r == hex_char(d as nat),
{
    if d < 10 {
        ASCII_ZERO + d as u8
    } else {
        ASCII_UPPER_A + (d - 10) as u8
    }
}

/// Two hexadecimal digits of `val`.
pub fn byte_to_hex(val: u8) -> (r: [u8; 2])
    ensures
        r@ == hex_text(val as nat, 2),
{
    assert((val & 0xF0) >> 4 == (val / 16) % 16 && val & 0x0F == val % 16) by (bit_vector);
    reveal_with_fuel(pow16, 2);
    assert(pow16(1) == 0x10 && pow16(0) == 1);
    let hi = hex_lookup(((val & 0xF0) >> 4) as u32);
    let lo = hex_lookup((val & 0x0F) as u32);
    let r = [hi, lo];
    assert(r@[0] == hi && r@[1] == lo);
    assert(hex_text(val as nat, 2)[0] == hex_char((val as nat / 16) % 16));
    assert(hex_text(val as nat, 2)[1] == hex_char((val as nat / 1) % 16));
    assert(r@ =~= hex_text(val as nat, 2));
    r
}

/// Four hexadecimal digits of `val`.
pub fn u16_to_hex(val: u16) -> (r: [u8; 4])
    ensures
        r@ == hex_text(val as nat, 4),
{
    assert((val & 0xF000) >> 12 == (val / 0x1000) % 16 && (val & 0x0F00) >> 8 == (val / 0x100) % 16
        && (val & 0x00F0) >> 4 == (val / 0x10) % 16 && val & 0x000F == val % 16) by (bit_vector);
    reveal_with_fuel(pow16, 4);
    assert(pow16(3) == 0x1000 && pow16(2) == 0x100 && pow16(1) == 0x10 && pow16(0) == 1);
    let d3 = hex_lookup(((val & 0xF000) >> 12) as u32);
    let d2 = hex_lookup(((val & 0x0F00) >> 8) as u32);
    let d1 = hex_lookup(((val & 0x00F0) >> 4) as u32);
    let d0 = hex_lookup((val & 0x000F) as u32);
    let r = [d3, d2, d1, d0];
    assert(r@[0] == d3 && r@[1] == d2 && r@[2] == d1 && r@[3] == d0);
    let ghost t = hex_text(val as nat, 4);
    assert(t[0] == hex_char((val as nat / 0x1000) % 16) && t[1] == hex_char((val as nat / 0x100) % 16)
        && t[2] == hex_char((val as nat / 0x10) % 16) && t[3] == hex_char((val as nat / 1) % 16));
    assert(r@ =~= t);
    r
}

/// Eight hexadecimal digits of `val`.
#[verifier::rlimit(40)]
pub fn u32_to_hex(val: u32) -> (r: [u8; 8])
    ensures
        r@ == hex_text(val as nat, 8),
{
    assert((val & 0xF0000000) >> 28 == (val / 0x10000000) % 16
        && (val & 0x0F000000) >> 24 == (val / 0x1000000) % 16
        && (val & 0x00F00000) >> 20 == (val / 0x100000) % 16
        && (val & 0x000F0000) >> 16 == (val / 0x10000) % 16
        && (val & 0x0000F000) >> 12 == (val / 0x1000) % 16
        && (val & 0x00000F00) >> 8 == (val / 0x100) % 16
        && (val & 0x000000F0) >> 4 == (val / 0x10) % 16
        && val & 0x0000000F == val % 16) by (bit_vector);
    reveal_with_fuel(pow16, 8);
    assert(pow16(7) == 0x10000000 && pow16(6) == 0x1000000 && pow16(5) == 0x100000
        && pow16(4) == 0x10000 && pow16(3) == 0x1000 && pow16(2) == 0x100 && pow16(1) == 0x10
        && pow16(0) == 1);
    let d7 = hex_lookup((val & 0xF0000000) >> 28);
    let d6 = hex_lookup((val & 0x0F000000) >> 24);
    let d5 = hex_lookup((val & 0x00F00000) >> 20);
    let d4 = hex_lookup((val & 0x000F0000) >> 16);
    let d3 = hex_lookup((val & 0x0000F000) >> 12);
    let d2 = hex_lookup((val & 0x00000F00) >> 8);
    let d1 = hex_lookup((val & 0x000000F0) >> 4);
    let d0 = hex_lookup(val & 0x0000000F);
    let r = [d7, d6, d5, d4, d3, d2, d1, d0];
    assert(r@[0] == d7 && r@[1] == d6 && r@[2] == d5 && r@[3] == d4);
    assert(r@[4] == d3 && r@[5] == d2 && r@[6] == d1 && r@[7] == d0);
    let ghost v = val as nat;
    let ghost t = hex_text(v, 8);
    assert(t[0] == hex_char((v / 0x10000000) % 16) && t[1] == hex_char((v / 0x1000000) % 16)
        && t[2] == hex_char((v / 0x100000) % 16) && t[3] == hex_char((v / 0x10000) % 16));
    assert(t[4] == hex_char((v / 0x1000) % 16) && t[5] == hex_char((v / 0x100) % 16)
        && t[6] == hex_char((v / 0x10) % 16) && t[7] == hex_char((v / 1) % 16));
    assert(r@ =~= t);
    r
}

} // verus!
