use vstd::prelude::*;

use vstd::arithmetic::div_mod::{lemma_fundamental_div_mod, lemma_mod_division_less_than_divisor};

use crate::encoding_decoding::wf_coeff;

verus! {

/// Standard JPEG example luminance quantization table (finer divisors).
pub const LUMINANCE_QUANT_TABLE: [[u8; 8]; 8] = [
    [16, 11, 10, 16, 24, 40, 51, 61],
    [12, 12, 14, 19, 26, 58, 60, 55],
    [14, 13, 16, 24, 40, 57, 69, 56],
    [14, 17, 22, 29, 51, 87, 80, 62],
    [18, 22, 37, 56, 68, 109, 103, 77],
    [24, 35, 55, 64, 81, 104, 113, 92],
    [49, 64, 78, 87, 103, 121, 120, 101],
    [72, 92, 95, 98, 112, 100, 103, 99],
];

/// Standard JPEG example chrominance quantization table (coarser divisors).
pub const CHROMINANCE_QUANT_TABLE: [[u8; 8]; 8] = [
    [17, 18, 24, 47, 99, 99, 99, 99],
    [18, 21, 26, 66, 99, 99, 99, 99],
    [24, 26, 56, 99, 99, 99, 99, 99],
    [47, 66, 99, 99, 99, 99, 99, 99],
    [99, 99, 99, 99, 99, 99, 99, 99],
    [99, 99, 99, 99, 99, 99, 99, 99],
    [99, 99, 99, 99, 99, 99, 99, 99],
    [99, 99, 99, 99, 99, 99, 99, 99],
];

/// Every divisor in both tables is positive.
pub proof fn lemma_quant_tables_positive()
    ensures
        forall|i: int, j: int|
            0 <= i < 8 && 0 <= j < 8 ==> (#[trigger] LUMINANCE_QUANT_TABLE@[i]@[j]) >= 1,
        forall|i: int, j: int|
            0 <= i < 8 && 0 <= j < 8 ==> (#[trigger] CHROMINANCE_QUANT_TABLE@[i]@[j]) >= 1,
{
}

pub open spec fn abs_val(v: int) -> int {
    if v < 0 {
        -v
    } else {
        v
    }
}

/// `v / t` rounded to the nearest integer, ties away from zero (`t >= 1`).
pub open spec fn rounded_div(v: int, t: int) -> int {
    if v >= 0 {
        (2 * v + t) / (2 * t)
    } else {
        -((2 * (-v) + t) / (2 * t))
    }
}

/// Rounding to the nearest multiple of `t` moves a value by at most `t / 2`:
/// reconstructing a quantized coefficient differs from the original by at
/// most half its divisor.
pub proof fn lemma_quantize_error(v: int, t: int)
    requires
        t >= 1,
    ensures
        2 * abs_val(rounded_div(v, t) * t - v) <= t,
{
    if v >= 0 {
        lemma_round_up_to_half(v, t);
    } else {
        lemma_round_up_to_half(-v, t);
        let q = (2 * (-v) + t) / (2 * t);
        assert((-q) * t - v == -(q * t - (-v))) by (nonlinear_arith);
    }
}

/// The nonnegative half of the rounding bound.
proof fn lemma_round_up_to_half(v: int, t: int)
    requires
        v >= 0,
        t >= 1,
    ensures
        2 * abs_val(((2 * v + t) / (2 * t)) * t - v) <= t,
{
    let d = 2 * t;
    let x = 2 * v + t;
    lemma_fundamental_div_mod(x, d);
    lemma_mod_division_less_than_divisor(x, d);
    let q = x / d;
    let r = x % d;
    assert(2 * (q * t) == d * q) by (nonlinear_arith)
        requires d == 2 * t;
    assert(2 * (q * t - v) == t - r);
}

/// Quantize a coefficient block: divide each entry by its table divisor and
/// round to the nearest integer, ties away from zero. This is the pipeline's
/// deliberate loss of high-frequency detail.
pub fn quantize(block: &[[i32; 8]; 8], quant_table: &[[u8; 8]; 8]) -> (q: [[i32; 8]; 8])
    requires
        forall|i: int, j: int|
            0 <= i < 8 && 0 <= j < 8 ==> (#[trigger] quant_table@[i]@[j]) >= 1,
    ensures
        forall|i: int, j: int|
            0 <= i < 8 && 0 <= j < 8
                ==> #[trigger] q@[i]@[j]
                    == rounded_div(block@[i]@[j] as int, quant_table@[i]@[j] as int),
{
    let mut q: [[i32; 8]; 8] = [[0; 8]; 8];
    let mut i: usize = 0;
    while i < 8
        invariant
            forall|ii: int, jj: int|
                0 <= ii < 8 && 0 <= jj < 8 ==> (#[trigger] quant_table@[ii]@[jj]) >= 1,
            i <= 8,
            forall|ii: int, jj: int|
                0 <= ii < i as int && 0 <= jj < 8
                    ==> #[trigger] q@[ii]@[jj]
                        == rounded_div(block@[ii]@[jj] as int, quant_table@[ii]@[jj] as int),
        decreases 8 - i as int,
    {
        let mut row: [i32; 8] = [0; 8];
        let mut j: usize = 0;
        while j < 8
            invariant
                forall|ii: int, jj: int|
                    0 <= ii < 8 && 0 <= jj < 8 ==> (#[trigger] quant_table@[ii]@[jj]) >= 1,
                i < 8,
                j <= 8,
                forall|jj: int|
                    0 <= jj < j as int
                        ==> #[trigger] row@[jj]
                            == rounded_div(block@[i as int]@[jj] as int, quant_table@[i as int]@[jj] as int),
            decreases 8 - j as int,
        {
            row[j] = rounded_div_exec(block[i][j], quant_table[i][j]);
            j = j + 1;
        }
        q[i] = row;
        i = i + 1;
    }
    q
}

/// One quantized entry, computed in 64-bit arithmetic.
fn rounded_div_exec(v: i32, t: u8) -> (q: i32)
    requires
        t >= 1,
    ensures
        q == rounded_div(v as int, t as int),
{
    let t64 = t as i64;
    if v >= 0 {
        let q64 = (2 * (v as i64) + t64) / (2 * t64);
        proof {
            assert(0 <= (2 * (v as int) + t) / (2 * t) <= v) by (nonlinear_arith)
                requires v >= 0 && t >= 1;
        }
        q64 as i32
    } else {
        let m = -(v as i64);
        let q64 = (2 * m + t64) / (2 * t64);
        proof {
            assert(0 <= (2 * (-(v as int)) + t) / (2 * t) <= -(v as int)) by (nonlinear_arith)
                requires v < 0 && t >= 1;
        }
        (-q64) as i32
    }
}

/// Dequantize a coefficient block: multiply each entry by its table divisor,
/// the approximate inverse of `quantize`.
pub fn dequantize(block: &[[i32; 8]; 8], quant_table: &[[u8; 8]; 8]) -> (d: [[i32; 8]; 8])
    requires
        forall|i: int, j: int|
            0 <= i < 8 && 0 <= j < 8 ==> wf_coeff(#[trigger] block@[i]@[j] as int),
    ensures
        forall|i: int, j: int|
            0 <= i < 8 && 0 <= j < 8
                ==> #[trigger] d@[i]@[j] == block@[i]@[j] * quant_table@[i]@[j],
{
    let mut d: [[i32; 8]; 8] = [[0; 8]; 8];
    let mut i: usize = 0;
    while i < 8
        invariant
            forall|ii: int, jj: int|
                0 <= ii < 8 && 0 <= jj < 8 ==> wf_coeff(#[trigger] block@[ii]@[jj] as int),
            i <= 8,
            forall|ii: int, jj: int|
                0 <= ii < i as int && 0 <= jj < 8
                    ==> #[trigger] d@[ii]@[jj] == block@[ii]@[jj] * quant_table@[ii]@[jj],
        decreases 8 - i as int,
    {
        let mut row: [i32; 8] = [0; 8];
        let mut j: usize = 0;
        while j < 8
            invariant
                forall|ii: int, jj: int|
                    0 <= ii < 8 && 0 <= jj < 8 ==> wf_coeff(#[trigger] block@[ii]@[jj] as int),
                i < 8,
                j <= 8,
                forall|jj: int|
                    0 <= jj < j as int
                        ==> #[trigger] row@[jj] == block@[i as int]@[jj] * quant_table@[i as int]@[jj],
            decreases 8 - j as int,
        {
            proof {
                assert(-32767 * 255 <= block@[i as int]@[j as int] * quant_table@[i as int]@[j as int]
                    <= 32767 * 255) by (nonlinear_arith)
                    requires
                        -32767 <= block@[i as int]@[j as int] <= 32767,
                        0 <= quant_table@[i as int]@[j as int] <= 255;
            }
            row[j] = block[i][j] * quant_table[i][j] as i32;
            j = j + 1;
        }
        d[i] = row;
        i = i + 1;
    }
    d
}

} // verus!
