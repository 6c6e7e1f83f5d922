//! Repacking of row-pitched pixel buffers.
//!
//! A texture mapped for CPU reads hands back its rows `row_pitch` bytes
//! apart, where the pitch is at least the row's payload of `4 * width`
//! bytes (four bytes per pixel) and usually larger, to satisfy the
//! device's alignment. The functions here check that such a buffer is
//! large enough and copy the payload of every row into a tightly packed
//! buffer, dropping the padding that follows each row.

use vstd::prelude::*;

verus! {

/// Position of byte `c` of row `r` in a tightly packed image `width`
/// pixels wide, at four bytes per pixel.
pub open spec fn packed_pos(width: nat, r: nat, c: nat) -> int {
    (r * (4 * width) + c) as int
}

/// Position of byte `c` of row `r` in a buffer whose rows start
/// `row_pitch` bytes apart.
pub open spec fn pitched_pos(row_pitch: nat, r: nat, c: nat) -> int {
    (r * row_pitch + c) as int
}

/// A pitched buffer of `src_len` bytes holds `height` rows of `row_pitch`
/// bytes, each row carries a payload of `4 * width` bytes, and the packed
/// payload fits in memory.
pub open spec fn repack_ok(width: nat, height: nat, row_pitch: nat, src_len: nat) -> bool {
    &&& 4 * width <= row_pitch
    &&& height * row_pitch <= src_len
    &&& 4 * width * height <= usize::MAX
}

proof fn lemma_mul_fits(a: int, b: int, a_bound: int, b_bound: int) by (nonlinear_arith)
    requires
        0 <= a <= a_bound,
        0 <= b <= b_bound,
    ensures
        a * b <= a_bound * b_bound,
{
}

/// Decides whether a mapped buffer of `src_len` bytes can be repacked
/// as a `width` by `height` image of rows `row_pitch` bytes apart.
pub fn repack_fits(width: u32, height: u32, row_pitch: u32, src_len: usize) -> (ok: bool)
    ensures
        ok == repack_ok(width as nat, height as nat, row_pitch as nat, src_len as nat),
{
    let w: u128 = width as u128;
    let h: u128 = height as u128;
    let p: u128 = row_pitch as u128;
    proof {
        lemma_mul_fits(h as int, p as int, 0xffff_ffff, 0xffff_ffff);
        lemma_mul_fits(4 * w as int, h as int, 0x4_0000_0000, 0xffff_ffff);
    }
    4 * w <= p && h * p <= src_len as u128 && 4 * w * h <= usize::MAX as u128
}

proof fn lemma_mul_le(a: int, b: int, m: int) by (nonlinear_arith)
    requires
        0 <= a <= b,
        0 <= m,
    ensures
        a * m <= b * m,
{
}

proof fn lemma_row_step(a: int, m: int) by (nonlinear_arith)
    ensures
        (a + 1) * m == a * m + m,
{
}

proof fn lemma_mul_comm(a: int, b: int) by (nonlinear_arith)
    ensures
        a * b == b * a,
{
}

/// Copies the `4 * width` payload bytes of each of `height` rows out of
/// the pitched buffer `src` into one tightly packed buffer, in row order,
/// dropping the padding that follows each row's payload.
pub fn pack_rows(src: &[u8], width: u32, height: u32, row_pitch: u32) -> (out: Vec<u8>)
    requires
        repack_ok(width as nat, height as nat, row_pitch as nat, src@.len()),
    ensures
        out@.len() == 4 * (width as nat) * (height as nat),
        forall|r: nat, c: nat|
            r < height as nat && c < 4 * (width as nat) ==> packed_pos(width as nat, r, c)
                < out@.len() && out@[#[trigger] packed_pos(width as nat, r, c)] == src@[pitched_pos(
                row_pitch as nat,
                r,
                c,
            )],
{
    let n: usize = src.len();
    let w4: usize = 4 * (width as usize);
    let pitch: usize = row_pitch as usize;
    let h: usize = height as usize;
    let mut out: Vec<u8> = Vec::new();
    let mut r: usize = 0;
    while r < h
        invariant
            repack_ok(width as nat, height as nat, row_pitch as nat, src@.len()),
            n == src@.len(),
            w4 as int == 4 * (width as int),
            pitch as int == row_pitch as int,
            h as int == height as int,
            r <= h,
            out@.len() == (r as int) * (w4 as int),
            forall|rr: nat, cc: nat|
                rr < r as nat && cc < w4 as nat ==> packed_pos(width as nat, rr, cc) < out@.len()
                    && out@[#[trigger] packed_pos(width as nat, rr, cc)] == src@[pitched_pos(
                    row_pitch as nat,
                    rr,
                    cc,
                )],
        decreases h - r,
    {
        proof {
            lemma_mul_le(r as int + 1, h as int, pitch as int);
            lemma_row_step(r as int, pitch as int);
        }
        let base: usize = r * pitch;
        let mut c: usize = 0;
        while c < w4
            invariant
                n == src@.len(),
                w4 as int == 4 * (width as int),
                pitch as int == row_pitch as int,
                w4 <= pitch,
                r < h,
                base as int == (r as int) * (pitch as int),
                base + pitch <= n,
                c <= w4,
                out@.len() == (r as int) * (w4 as int) + c as int,
                forall|rr: nat, cc: nat|
                    rr < r as nat && cc < w4 as nat ==> packed_pos(width as nat, rr, cc)
                        < out@.len() && out@[#[trigger] packed_pos(width as nat, rr, cc)]
                        == src@[pitched_pos(row_pitch as nat, rr, cc)],
                forall|cc: nat|
                    cc < c as nat ==> packed_pos(width as nat, r as nat, cc) < out@.len()
                        && out@[#[trigger] packed_pos(width as nat, r as nat, cc)]
                        == src@[pitched_pos(row_pitch as nat, r as nat, cc)],
            decreases w4 - c,
        {
            let b: u8 = src[base + c];
            out.push(b);
            c = c + 1;
        }
        proof {
            lemma_row_step(r as int, w4 as int);
        }
        r = r + 1;
    }
    proof {
        lemma_mul_comm(h as int, w4 as int);
    }
    out
}

} // verus!
