use vstd::prelude::*;

use crate::raster::ImageBuf;

verus! {

/// A dimension rounded up to the next multiple of 16.
pub open spec fn padded16(d: int) -> int {
    ((d + 15) / 16) * 16
}

pub proof fn lemma_padded16(d: int)
    requires
        0 <= d,
    ensures
        d <= padded16(d),
        padded16(d) <= d + 15,
        padded16(d) % 16 == 0,
        padded16(d) % 8 == 0,
        padded16(d) % 2 == 0,
{
    let q = (d + 15) / 16;
    assert(16 * q <= d + 15 && d + 15 < 16 * (q + 1)) by (nonlinear_arith)
        requires q == (d + 15) / 16 && 0 <= d;
    assert((q * 16) % 16 == 0 && (q * 16) % 8 == 0 && (q * 16) % 2 == 0) by (nonlinear_arith);
}

/// The sample a padded plane sees at `(x, y)`: the image's own sample inside
/// its bounds, and 0 (black) outside them.
pub open spec fn chan_or_zero(img: ImageBuf, x: int, y: int, c: int) -> u8 {
    if 0 <= x < img.width && 0 <= y < img.height {
        img.chan(x, y, c)
    } else {
        0u8
    }
}

/// Floor average of the four channel-`c` samples of the 2x2 group at
/// `(2*gx, 2*gy)`.
pub open spec fn avg4(img: ImageBuf, c: int, gx: int, gy: int) -> u8 {
    (((chan_or_zero(img, 2 * gx, 2 * gy, c) + chan_or_zero(img, 2 * gx + 1, 2 * gy, c)
        + chan_or_zero(img, 2 * gx, 2 * gy + 1, c) + chan_or_zero(img, 2 * gx + 1, 2 * gy + 1, c))
        as int) / 4) as u8
}

/// The pixel at `(x, y)` if it lies inside the stated bounds, black otherwise.
pub fn get_pixel_or_default(img: &ImageBuf, x: u32, y: u32, width: u32, height: u32) -> (p: [u8; 3])
    requires
        img.wf(),
        width == img.width,
        height == img.height,
    ensures
        forall|c: int| 0 <= c < 3 ==> p@[c] == chan_or_zero(*img, x as int, y as int, c),
{
    if x < width && y < height {
        img.get_pixel(x, y)
    } else {
        [0u8, 0u8, 0u8]
    }
}

/// Split a YCbCr image into three sample planes, padding each dimension up to
/// a multiple of 16 with black: a full-resolution luma plane and two
/// half-resolution chroma planes whose samples are the floor average of each
/// 2x2 group (4:2:0 subsampling). Also returns the original dimensions.
pub fn chroma_downsample(img: &ImageBuf) -> (r: (Vec<Vec<u8>>, Vec<Vec<u8>>, Vec<Vec<u8>>, u32, u32))
    requires
        img.wf(),
        img.width <= 0xfffffff0u32,
        img.height <= 0xfffffff0u32,
    ensures
        r.3 == img.width,
        r.4 == img.height,
        r.0@.len() == padded16(img.height as int),
        forall|y: int|
            0 <= y < padded16(img.height as int)
                ==> (#[trigger] r.0@[y])@.len() == padded16(img.width as int),
        forall|x: int, y: int|
            0 <= x < padded16(img.width as int) && 0 <= y < padded16(img.height as int)
                ==> #[trigger] r.0@[y]@[x] == chan_or_zero(*img, x, y, 0),
        r.1@.len() == padded16(img.height as int) / 2,
        r.2@.len() == padded16(img.height as int) / 2,
        forall|gy: int|
            0 <= gy < padded16(img.height as int) / 2
                ==> (#[trigger] r.1@[gy])@.len() == padded16(img.width as int) / 2,
        forall|gy: int|
            0 <= gy < padded16(img.height as int) / 2
                ==> (#[trigger] r.2@[gy])@.len() == padded16(img.width as int) / 2,
        forall|gx: int, gy: int|
            0 <= gx < padded16(img.width as int) / 2 && 0 <= gy < padded16(img.height as int) / 2
                ==> #[trigger] r.1@[gy]@[gx] == avg4(*img, 1, gx, gy),
        forall|gx: int, gy: int|
            0 <= gx < padded16(img.width as int) / 2 && 0 <= gy < padded16(img.height as int) / 2
                ==> #[trigger] r.2@[gy]@[gx] == avg4(*img, 2, gx, gy),
{
    let width = img.width;
    let height = img.height;
    let padded_width = (width + 15) / 16 * 16;
    let padded_height = (height + 15) / 16 * 16;
    proof {
        lemma_padded16(width as int);
        lemma_padded16(height as int);
    }

    let mut y_matrix: Vec<Vec<u8>> = Vec::new();
    let mut y: u32 = 0;
    while y < padded_height
        invariant
            img.wf(),
            width == img.width,
            height == img.height,
            padded_width == padded16(width as int),
            padded_height == padded16(height as int),
            y <= padded_height,
            y_matrix@.len() == y as int,
            forall|yy: int|
                0 <= yy < y as int ==> (#[trigger] y_matrix@[yy])@.len() == padded_width as int,
            forall|xx: int, yy: int|
                0 <= xx < padded_width && 0 <= yy < y as int
                    ==> #[trigger] y_matrix@[yy]@[xx] == chan_or_zero(*img, xx, yy, 0),
        decreases padded_height as int - y as int,
    {
        let mut row: Vec<u8> = Vec::new();
        let mut x: u32 = 0;
        while x < padded_width
            invariant
                img.wf(),
                width == img.width,
                height == img.height,
                x <= padded_width,
                row@.len() == x as int,
                forall|xx: int|
                    0 <= xx < x as int ==> #[trigger] row@[xx] == chan_or_zero(*img, xx, y as int, 0),
            decreases padded_width as int - x as int,
        {
            let p = get_pixel_or_default(img, x, y, width, height);
            row.push(p[0]);
            x = x + 1;
        }
        y_matrix.push(row);
        y = y + 1;
    }

    let mut cb_matrix: Vec<Vec<u8>> = Vec::new();
    let mut cr_matrix: Vec<Vec<u8>> = Vec::new();
    let mut gy: u32 = 0;
    while gy < padded_height / 2
        invariant
            img.wf(),
            width == img.width,
            height == img.height,
            padded_width == padded16(width as int),
            padded_height == padded16(height as int),
            gy <= padded_height / 2,
            cb_matrix@.len() == gy as int,
            cr_matrix@.len() == gy as int,
            forall|yy: int|
                0 <= yy < gy as int
                    ==> (#[trigger] cb_matrix@[yy])@.len() == padded_width as int / 2,
            forall|yy: int|
                0 <= yy < gy as int
                    ==> (#[trigger] cr_matrix@[yy])@.len() == padded_width as int / 2,
            forall|xx: int, yy: int|
                0 <= xx < padded_width as int / 2 && 0 <= yy < gy as int
                    ==> #[trigger] cb_matrix@[yy]@[xx] == avg4(*img, 1, xx, yy),
            forall|xx: int, yy: int|
                0 <= xx < padded_width as int / 2 && 0 <= yy < gy as int
                    ==> #[trigger] cr_matrix@[yy]@[xx] == avg4(*img, 2, xx, yy),
        decreases padded_height as int / 2 - gy as int,
    {
        let mut cb_row: Vec<u8> = Vec::new();
        let mut cr_row: Vec<u8> = Vec::new();
        let mut gx: u32 = 0;
        while gx < padded_width / 2
            invariant
                img.wf(),
                width == img.width,
                height == img.height,
                gy < padded_height / 2,
                padded_height == padded16(height as int),
                gx <= padded_width / 2,
                cb_row@.len() == gx as int,
                cr_row@.len() == gx as int,
                forall|xx: int|
                    0 <= xx < gx as int
                        ==> #[trigger] cb_row@[xx] == avg4(*img, 1, xx, gy as int),
                forall|xx: int|
                    0 <= xx < gx as int
                        ==> #[trigger] cr_row@[xx] == avg4(*img, 2, xx, gy as int),
            decreases padded_width as int / 2 - gx as int,
        {
            let p1 = get_pixel_or_default(img, 2 * gx, 2 * gy, width, height);
            let p2 = get_pixel_or_default(img, 2 * gx + 1, 2 * gy, width, height);
            let p3 = get_pixel_or_default(img, 2 * gx, 2 * gy + 1, width, height);
            let p4 = get_pixel_or_default(img, 2 * gx + 1, 2 * gy + 1, width, height);
            let avg_cb = (p1[1] as u16 + p2[1] as u16 + p3[1] as u16 + p4[1] as u16) / 4;
            let avg_cr = (p1[2] as u16 + p2[2] as u16 + p3[2] as u16 + p4[2] as u16) / 4;
            cb_row.push(avg_cb as u8);
            cr_row.push(avg_cr as u8);
            gx = gx + 1;
        }
        cb_matrix.push(cb_row);
        cr_matrix.push(cr_row);
        gy = gy + 1;
    }

    (y_matrix, cb_matrix, cr_matrix, width, height)
}

/// Reassemble a full-resolution YCbCr image from the three planes, driven by
/// the original (unpadded) dimensions: every output pixel takes its luma
/// sample from the full-resolution plane and the shared chroma samples of its
/// 2x2 group from the half-resolution planes. The padding region never
/// reaches the output.
pub fn chroma_reshore(
    y_matrix: &Vec<Vec<u8>>,
    cb_matrix: &Vec<Vec<u8>>,
    cr_matrix: &Vec<Vec<u8>>,
    orig_width: u32,
    orig_height: u32,
) -> (r: ImageBuf)
    requires
        orig_width <= 0xfffffff0u32,
        orig_height <= 0xfffffff0u32,
        y_matrix@.len() == padded16(orig_height as int),
        forall|y: int|
            0 <= y < padded16(orig_height as int)
                ==> (#[trigger] y_matrix@[y])@.len() == padded16(orig_width as int),
        cb_matrix@.len() == padded16(orig_height as int) / 2,
        cr_matrix@.len() == padded16(orig_height as int) / 2,
        forall|gy: int|
            0 <= gy < padded16(orig_height as int) / 2
                ==> (#[trigger] cb_matrix@[gy])@.len() == padded16(orig_width as int) / 2,
        forall|gy: int|
            0 <= gy < padded16(orig_height as int) / 2
                ==> (#[trigger] cr_matrix@[gy])@.len() == padded16(orig_width as int) / 2,
    ensures
        r.wf(),
        r.width == orig_width,
        r.height == orig_height,
        forall|x: int, y: int|
            0 <= x < orig_width && 0 <= y < orig_height ==> {
                &&& #[trigger] r.chan(x, y, 0) == y_matrix@[y]@[x]
                &&& r.chan(x, y, 1) == cb_matrix@[y / 2]@[x / 2]
                &&& r.chan(x, y, 2) == cr_matrix@[y / 2]@[x / 2]
            },
{
    proof {
        lemma_padded16(orig_width as int);
        lemma_padded16(orig_height as int);
    }
    let mut rows: Vec<Vec<[u8; 3]>> = Vec::new();
    let mut y: u32 = 0;
    while y < orig_height
        invariant
            orig_width <= 0xfffffff0u32,
            orig_height <= padded16(orig_height as int),
            orig_width <= padded16(orig_width as int),
            y_matrix@.len() == padded16(orig_height as int),
            forall|yy: int|
                0 <= yy < padded16(orig_height as int)
                    ==> (#[trigger] y_matrix@[yy])@.len() == padded16(orig_width as int),
            cb_matrix@.len() == padded16(orig_height as int) / 2,
            cr_matrix@.len() == padded16(orig_height as int) / 2,
            forall|gy: int|
                0 <= gy < padded16(orig_height as int) / 2
                    ==> (#[trigger] cb_matrix@[gy])@.len() == padded16(orig_width as int) / 2,
            forall|gy: int|
                0 <= gy < padded16(orig_height as int) / 2
                    ==> (#[trigger] cr_matrix@[gy])@.len() == padded16(orig_width as int) / 2,
            y <= orig_height,
            rows@.len() == y as int,
            forall|yy: int|
                0 <= yy < y as int ==> (#[trigger] rows@[yy])@.len() == orig_width as int,
            forall|xx: int, yy: int|
                0 <= xx < orig_width && 0 <= yy < y as int ==> {
                    &&& (#[trigger] rows@[yy]@[xx])@[0] == y_matrix@[yy]@[xx]
                    &&& rows@[yy]@[xx]@[1] == cb_matrix@[yy / 2]@[xx / 2]
                    &&& rows@[yy]@[xx]@[2] == cr_matrix@[yy / 2]@[xx / 2]
                },
        decreases orig_height as int - y as int,
    {
        let mut row: Vec<[u8; 3]> = Vec::new();
        let mut x: u32 = 0;
        while x < orig_width
            invariant
                orig_width <= padded16(orig_width as int),
                y < orig_height,
                orig_height <= padded16(orig_height as int),
                y_matrix@.len() == padded16(orig_height as int),
                forall|yy: int|
                    0 <= yy < padded16(orig_height as int)
                        ==> (#[trigger] y_matrix@[yy])@.len() == padded16(orig_width as int),
                cb_matrix@.len() == padded16(orig_height as int) / 2,
                cr_matrix@.len() == padded16(orig_height as int) / 2,
                forall|gy: int|
                    0 <= gy < padded16(orig_height as int) / 2
                        ==> (#[trigger] cb_matrix@[gy])@.len() == padded16(orig_width as int) / 2,
                forall|gy: int|
                    0 <= gy < padded16(orig_height as int) / 2
                        ==> (#[trigger] cr_matrix@[gy])@.len() == padded16(orig_width as int) / 2,
                padded16(orig_height as int) % 2 == 0,
                padded16(orig_width as int) % 2 == 0,
                x <= orig_width,
                row@.len() == x as int,
                forall|xx: int|
                    0 <= xx < x as int ==> {
                        &&& (#[trigger] row@[xx])@[0] == y_matrix@[y as int]@[xx]
                        &&& row@[xx]@[1] == cb_matrix@[y as int / 2]@[xx / 2]
                        &&& row@[xx]@[2] == cr_matrix@[y as int / 2]@[xx / 2]
                    },
            decreases orig_width as int - x as int,
        {
            proof {
                lemma_half_in_padded(y as int, padded16(orig_height as int));
                lemma_half_in_padded(x as int, padded16(orig_width as int));
            }
            let lum = y_matrix[y as usize][x as usize];
            let cb = cb_matrix[(y / 2) as usize][(x / 2) as usize];
            let cr = cr_matrix[(y / 2) as usize][(x / 2) as usize];
            row.push([lum, cb, cr]);
            x = x + 1;
        }
        rows.push(row);
        y = y + 1;
    }
    ImageBuf { width: orig_width, height: orig_height, rows }
}

/// A coordinate below an even bound keeps its half below half the bound.
proof fn lemma_half_in_padded(v: int, p: int)
    requires
        0 <= v < p,
        p % 2 == 0,
    ensures
        v / 2 < p / 2,
{
    assert(v / 2 < p / 2) by (nonlinear_arith)
        requires 0 <= v < p && p % 2 == 0;
}

} // verus!
