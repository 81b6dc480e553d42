use vstd::prelude::*;

use crate::color_space::clamp255;
use crate::downsampling::padded16;

verus! {

/// A plane whose dimensions are multiples of 8, stored as rows of samples.
pub open spec fn plane_wf(m: Seq<Vec<u8>>, w: int, h: int) -> bool {
    &&& m.len() == h
    &&& h > 0
    &&& w > 0
    &&& h % 8 == 0
    &&& w % 8 == 0
    &&& forall|y: int| 0 <= y < h ==> (#[trigger] m[y])@.len() == w
}

/// Decomposing a coordinate as `q * 8 + r` recovers `q` and `r` by division.
pub proof fn lemma_div8(q: int, r: int)
    requires
        0 <= q,
        0 <= r < 8,
    ensures
        (q * 8 + r) / 8 == q,
        (q * 8 + r) % 8 == r,
{
    assert((q * 8 + r) / 8 == q && (q * 8 + r) % 8 == r) by (nonlinear_arith)
        requires 0 <= q && 0 <= r < 8;
}

/// Copy the 8x8 tile whose top-left corner is `(x0, y0)` out of a plane,
/// widening each sample to a signed value.
fn copy_block(m: &Vec<Vec<u8>>, x0: usize, y0: usize, w: usize, h: usize) -> (b: [[i32; 8]; 8])
    requires
        plane_wf(m@, w as int, h as int),
        x0 + 8 <= w,
        y0 + 8 <= h,
    ensures
        forall|j: int, i: int|
            0 <= j < 8 && 0 <= i < 8 ==> b@[j]@[i] == m@[y0 + j]@[x0 + i] as i32,
{
    let mut b: [[i32; 8]; 8] = [
        [0, 0, 0, 0, 0, 0, 0, 0],
        [0, 0, 0, 0, 0, 0, 0, 0],
        [0, 0, 0, 0, 0, 0, 0, 0],
        [0, 0, 0, 0, 0, 0, 0, 0],
        [0, 0, 0, 0, 0, 0, 0, 0],
        [0, 0, 0, 0, 0, 0, 0, 0],
        [0, 0, 0, 0, 0, 0, 0, 0],
        [0, 0, 0, 0, 0, 0, 0, 0],
    ];
    let mut j: usize = 0;
    while j < 8
        invariant
            plane_wf(m@, w as int, h as int),
            x0 + 8 <= w,
            y0 + 8 <= h,
            j <= 8,
            forall|jj: int, ii: int|
                0 <= jj < j as int && 0 <= ii < 8 ==> b@[jj]@[ii] == m@[y0 + jj]@[x0 + ii] as i32,
        decreases 8 - j as int,
    {
        let mut row: [i32; 8] = [0, 0, 0, 0, 0, 0, 0, 0];
        let mut i: usize = 0;
        while i < 8
            invariant
                plane_wf(m@, w as int, h as int),
                x0 + 8 <= w,
                y0 + 8 <= h,
                j < 8,
                i <= 8,
                forall|ii: int| 0 <= ii < i as int ==> row@[ii] == m@[y0 + j as int]@[x0 + ii] as i32,
            decreases 8 - i as int,
        {
            row[i] = m[y0 + j][x0 + i] as i32;
            i = i + 1;
        }
        b[j] = row;
        j = j + 1;
    }
    b
}

/// Partition one plane into its 8x8 tiles in raster order.
fn split_plane(m: &Vec<Vec<u8>>, w: usize, h: usize) -> (blocks: Vec<[[i32; 8]; 8]>)
    requires
        plane_wf(m@, w as int, h as int),
    ensures
        blocks@.len() == (h as int / 8) * (w as int / 8),
        forall|ty: int, tx: int, j: int, i: int|
            0 <= ty < h as int / 8 && 0 <= tx < w as int / 8 && 0 <= j < 8 && 0 <= i < 8
                ==> #[trigger] blocks@[ty * (w as int / 8) + tx]@[j]@[i]
                    == m@[ty * 8 + j]@[tx * 8 + i] as i32,
{
    let bw = w / 8;
    let bh = h / 8;
    let mut blocks: Vec<[[i32; 8]; 8]> = Vec::new();
    let mut ty: usize = 0;
    while ty < bh
        invariant
            plane_wf(m@, w as int, h as int),
            bw == w as int / 8,
            bh == h as int / 8,
            ty <= bh,
            blocks@.len() == ty as int * bw as int,
            forall|yy: int, xx: int, j: int, i: int|
                0 <= yy < ty as int && 0 <= xx < bw as int && 0 <= j < 8 && 0 <= i < 8
                    ==> #[trigger] blocks@[yy * bw as int + xx]@[j]@[i]
                        == m@[yy * 8 + j]@[xx * 8 + i] as i32,
        decreases bh as int - ty as int,
    {
        let mut tx: usize = 0;
        while tx < bw
            invariant
                plane_wf(m@, w as int, h as int),
                bw == w as int / 8,
                bh == h as int / 8,
                ty < bh,
                tx <= bw,
                blocks@.len() == ty as int * bw as int + tx as int,
                forall|yy: int, xx: int, j: int, i: int|
                    0 <= yy < ty as int && 0 <= xx < bw as int && 0 <= j < 8 && 0 <= i < 8
                        ==> #[trigger] blocks@[yy * bw as int + xx]@[j]@[i]
                            == m@[yy * 8 + j]@[xx * 8 + i] as i32,
                forall|xx: int, j: int, i: int|
                    0 <= xx < tx as int && 0 <= j < 8 && 0 <= i < 8
                        ==> #[trigger] blocks@[ty as int * bw as int + xx]@[j]@[i]
                            == m@[ty as int * 8 + j]@[xx * 8 + i] as i32,
        decreases bw as int - tx as int,
        {
            proof {
                assert(ty as int * 8 + 8 <= h as int && tx as int * 8 + 8 <= w as int)
                    by (nonlinear_arith)
                    requires
                        (ty as int) < h as int / 8,
                        (tx as int) < w as int / 8,
                        h as int % 8 == 0,
                        w as int % 8 == 0,
                        h as int > 0,
                        w as int > 0;
                assert(ty as int * bw as int + bw as int <= bh as int * bw as int)
                    by (nonlinear_arith)
                    requires (ty as int) < bh as int;
            }
            let blk = copy_block(m, tx * 8, ty * 8, w, h);
            blocks.push(blk);
            proof {
                assert forall|yy: int, xx: int|
                    0 <= yy < ty as int && 0 <= xx < bw as int
                    implies #[trigger] (yy * bw as int + xx) < ty as int * bw as int by {
                    assert(yy * bw as int + xx < ty as int * bw as int) by (nonlinear_arith)
                        requires 0 <= yy < ty as int && 0 <= xx < bw as int;
                }
            }
            tx = tx + 1;
        }
        ty = ty + 1;
        proof {
            assert(ty as int * bw as int == (ty as int - 1) * bw as int + bw as int)
                by (nonlinear_arith);
        }
    }
    proof {
        assert(bh as int * bw as int == blocks@.len());
    }
    blocks
}

/// Split the three planes into 8x8 blocks in raster order, each plane with
/// its own dimensions; samples widen to signed values.
pub fn split_into_blocks(
    y_matrix: &Vec<Vec<u8>>,
    cb_matrix: &Vec<Vec<u8>>,
    cr_matrix: &Vec<Vec<u8>>,
) -> (r: (Vec<[[i32; 8]; 8]>, Vec<[[i32; 8]; 8]>, Vec<[[i32; 8]; 8]>))
    requires
        y_matrix@.len() > 0,
        cb_matrix@.len() > 0,
        plane_wf(y_matrix@, y_matrix@[0]@.len() as int, y_matrix@.len() as int),
        plane_wf(cb_matrix@, cb_matrix@[0]@.len() as int, cb_matrix@.len() as int),
        plane_wf(cr_matrix@, cb_matrix@[0]@.len() as int, cb_matrix@.len() as int),
    ensures
        ({
            let w = y_matrix@[0]@.len() as int;
            let h = y_matrix@.len() as int;
            &&& r.0@.len() == (h / 8) * (w / 8)
            &&& forall|ty: int, tx: int, j: int, i: int|
                0 <= ty < h / 8 && 0 <= tx < w / 8 && 0 <= j < 8 && 0 <= i < 8
                    ==> #[trigger] r.0@[ty * (w / 8) + tx]@[j]@[i]
                        == y_matrix@[ty * 8 + j]@[tx * 8 + i] as i32
        }),
        ({
            let cw = cb_matrix@[0]@.len() as int;
            let ch = cb_matrix@.len() as int;
            &&& r.1@.len() == (ch / 8) * (cw / 8)
            &&& r.2@.len() == (ch / 8) * (cw / 8)
            &&& forall|ty: int, tx: int, j: int, i: int|
                0 <= ty < ch / 8 && 0 <= tx < cw / 8 && 0 <= j < 8 && 0 <= i < 8
                    ==> #[trigger] r.1@[ty * (cw / 8) + tx]@[j]@[i]
                        == cb_matrix@[ty * 8 + j]@[tx * 8 + i] as i32
            &&& forall|ty: int, tx: int, j: int, i: int|
                0 <= ty < ch / 8 && 0 <= tx < cw / 8 && 0 <= j < 8 && 0 <= i < 8
                    ==> #[trigger] r.2@[ty * (cw / 8) + tx]@[j]@[i]
                        == cr_matrix@[ty * 8 + j]@[tx * 8 + i] as i32
        }),
{
    let w = y_matrix[0].len();
    let h = y_matrix.len();
    let cw = cb_matrix[0].len();
    let ch = cb_matrix.len();
    let y_blocks = split_plane(y_matrix, w, h);
    let cb_blocks = split_plane(cb_matrix, cw, ch);
    let cr_blocks = split_plane(cr_matrix, cw, ch);
    (y_blocks, cb_blocks, cr_blocks)
}

/// Narrow a reconstructed value to an 8-bit sample, clamping to [0, 255].
fn clamp_sample(v: i32) -> (r: u8)
    ensures
        r == clamp255(v as int),
{
    if v < 0 {
        0
    } else if v > 255 {
        255
    } else {
        v as u8
    }
}

/// Rebuild one plane of the given padded dimensions from its 8x8 tiles in
/// raster order, clamping each value to [0, 255].
fn merge_plane(blocks: &Vec<[[i32; 8]; 8]>, pw: usize, ph: usize) -> (m: Vec<Vec<u8>>)
    requires
        pw > 0,
        ph > 0,
        pw % 8 == 0,
        ph % 8 == 0,
        blocks@.len() == (ph as int / 8) * (pw as int / 8),
    ensures
        m@.len() == ph as int,
        forall|y: int| 0 <= y < ph as int ==> (#[trigger] m@[y])@.len() == pw as int,
        forall|y: int, x: int|
            0 <= y < ph as int && 0 <= x < pw as int
                ==> #[trigger] m@[y]@[x]
                    == clamp255(blocks@[(y / 8) * (pw as int / 8) + x / 8]@[y % 8]@[x % 8] as int),
{
    let bw = pw / 8;
    let mut m: Vec<Vec<u8>> = Vec::new();
    let mut y: usize = 0;
    while y < ph
        invariant
            pw > 0,
            ph > 0,
            pw % 8 == 0,
            ph % 8 == 0,
            bw == pw as int / 8,
            blocks@.len() == (ph as int / 8) * (pw as int / 8),
            y <= ph,
            m@.len() == y as int,
            forall|yy: int| 0 <= yy < y as int ==> (#[trigger] m@[yy])@.len() == pw as int,
            forall|yy: int, xx: int|
                0 <= yy < y as int && 0 <= xx < pw as int
                    ==> #[trigger] m@[yy]@[xx]
                        == clamp255(blocks@[(yy / 8) * (pw as int / 8) + xx / 8]@[yy % 8]@[xx % 8] as int),
        decreases ph as int - y as int,
    {
        let mut row: Vec<u8> = Vec::new();
        let mut x: usize = 0;
        while x < pw
            invariant
                pw > 0,
                ph > 0,
                pw % 8 == 0,
                ph % 8 == 0,
                bw == pw as int / 8,
                blocks@.len() == (ph as int / 8) * (pw as int / 8),
                y < ph,
                x <= pw,
                row@.len() == x as int,
                forall|xx: int|
                    0 <= xx < x as int
                        ==> #[trigger] row@[xx]
                            == clamp255(blocks@[(y as int / 8) * (pw as int / 8) + xx / 8]@[y as int % 8]@[xx % 8] as int),
            decreases pw as int - x as int,
        {
            proof {
                assert(0 <= y as int / 8 < ph as int / 8 && 0 <= x as int / 8 < pw as int / 8
                    && 0 <= y as int % 8 < 8 && 0 <= x as int % 8 < 8
                    && (y as int / 8) * (pw as int / 8) + x as int / 8
                        < (ph as int / 8) * (pw as int / 8)) by (nonlinear_arith)
                    requires
                        0 <= (y as int) < ph as int,
                        0 <= (x as int) < pw as int,
                        ph as int % 8 == 0,
                        pw as int % 8 == 0;
            }
            let n = blocks.len();
            let idx = (y / 8) * bw + x / 8;
            let v = blocks[idx][y % 8][x % 8];
            row.push(clamp_sample(v));
            x = x + 1;
        }
        m.push(row);
        y = y + 1;
    }
    m
}

/// Rebuild the three padded planes from their block lists: block `k` of a
/// plane lands at tile `(k % blocks_per_row, k / blocks_per_row)`. Values
/// are clamped to [0, 255] before narrowing to 8-bit samples.
pub fn merge_blocks(
    y_blocks: &Vec<[[i32; 8]; 8]>,
    cb_blocks: &Vec<[[i32; 8]; 8]>,
    cr_blocks: &Vec<[[i32; 8]; 8]>,
    orig_width: u32,
    orig_height: u32,
) -> (r: (Vec<Vec<u8>>, Vec<Vec<u8>>, Vec<Vec<u8>>))
    requires
        0 < orig_width <= 0xfffffff0u32,
        0 < orig_height <= 0xfffffff0u32,
        y_blocks@.len() == (padded16(orig_height as int) / 8) * (padded16(orig_width as int) / 8),
        cb_blocks@.len() == (padded16(orig_height as int) / 2 / 8) * (padded16(orig_width as int) / 2 / 8),
        cr_blocks@.len() == (padded16(orig_height as int) / 2 / 8) * (padded16(orig_width as int) / 2 / 8),
    ensures
        ({
            let pw = padded16(orig_width as int);
            let ph = padded16(orig_height as int);
            &&& r.0@.len() == ph
            &&& forall|y: int| 0 <= y < ph ==> (#[trigger] r.0@[y])@.len() == pw
            &&& forall|y: int, x: int|
                0 <= y < ph && 0 <= x < pw
                    ==> #[trigger] r.0@[y]@[x]
                        == clamp255(y_blocks@[(y / 8) * (pw / 8) + x / 8]@[y % 8]@[x % 8] as int)
        }),
        ({
            let cw = padded16(orig_width as int) / 2;
            let ch = padded16(orig_height as int) / 2;
            &&& r.1@.len() == ch
            &&& r.2@.len() == ch
            &&& forall|y: int| 0 <= y < ch ==> (#[trigger] r.1@[y])@.len() == cw
            &&& forall|y: int| 0 <= y < ch ==> (#[trigger] r.2@[y])@.len() == cw
            &&& forall|y: int, x: int|
                0 <= y < ch && 0 <= x < cw
                    ==> #[trigger] r.1@[y]@[x]
                        == clamp255(cb_blocks@[(y / 8) * (cw / 8) + x / 8]@[y % 8]@[x % 8] as int)
            &&& forall|y: int, x: int|
                0 <= y < ch && 0 <= x < cw
                    ==> #[trigger] r.2@[y]@[x]
                        == clamp255(cr_blocks@[(y / 8) * (cw / 8) + x / 8]@[y % 8]@[x % 8] as int)
        }),
{
    proof {
        crate::downsampling::lemma_padded16(orig_width as int);
        crate::downsampling::lemma_padded16(orig_height as int);
        assert(padded16(orig_width as int) / 2 % 8 == 0
            && padded16(orig_height as int) / 2 % 8 == 0
            && padded16(orig_width as int) / 2 > 0
            && padded16(orig_height as int) / 2 > 0) by (nonlinear_arith)
            requires
                padded16(orig_width as int) % 16 == 0,
                padded16(orig_height as int) % 16 == 0,
                padded16(orig_width as int) >= orig_width as int > 0,
                padded16(orig_height as int) >= orig_height as int > 0;
    }
    let padded_width_y = (orig_width + 15) / 16 * 16;
    let padded_height_y = (orig_height + 15) / 16 * 16;
    let padded_width_c = padded_width_y / 2;
    let padded_height_c = padded_height_y / 2;
    let y_matrix = merge_plane(y_blocks, padded_width_y as usize, padded_height_y as usize);
    let cb_matrix = merge_plane(cb_blocks, padded_width_c as usize, padded_height_c as usize);
    let cr_matrix = merge_plane(cr_blocks, padded_width_c as usize, padded_height_c as usize);
    (y_matrix, cb_matrix, cr_matrix)
}

} // verus!
