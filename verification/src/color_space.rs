use vstd::prelude::*;

use crate::raster::ImageBuf;

verus! {

/// Clamp an integer to the 8-bit sample range [0, 255].
pub open spec fn clamp255(v: int) -> u8 {
    if v < 0 {
        0u8
    } else if v > 255 {
        255u8
    } else {
        v as u8
    }
}

/// Scale factor for the fixed-point color coefficients: every coefficient of
/// the RGB/YCbCr transform has at most six decimal places, so multiplying it
/// by 1_000_000 represents it exactly as an integer.
pub open spec fn scale_clamp(num: int) -> u8 {
    clamp255(num / 1000000)
}

/// Y  = 0.299 R + 0.587 G + 0.114 B
pub open spec fn y_of(r: u8, g: u8, b: u8) -> u8 {
    scale_clamp(299000 * r + 587000 * g + 114000 * b)
}

/// Cb = 128 - 0.168736 R - 0.331264 G + 0.5 B
pub open spec fn cb_of(r: u8, g: u8, b: u8) -> u8 {
    scale_clamp(128000000 - 168736 * r - 331264 * g + 500000 * b)
}

/// Cr = 128 + 0.5 R - 0.418688 G - 0.081312 B
pub open spec fn cr_of(r: u8, g: u8, b: u8) -> u8 {
    scale_clamp(128000000 + 500000 * r - 418688 * g - 81312 * b)
}

/// R = Y + 1.402 (Cr - 128)
pub open spec fn r_of(y: u8, cb: u8, cr: u8) -> u8 {
    scale_clamp(1000000 * y + 1402000 * (cr - 128))
}

/// G = Y - 0.344136 (Cb - 128) - 0.714136 (Cr - 128)
pub open spec fn g_of(y: u8, cb: u8, cr: u8) -> u8 {
    scale_clamp(1000000 * y - 344136 * (cb - 128) - 714136 * (cr - 128))
}

/// B = Y + 1.772 (Cb - 128)
pub open spec fn b_of(y: u8, cb: u8, cr: u8) -> u8 {
    scale_clamp(1000000 * y + 1772000 * (cb - 128))
}

/// Divide a fixed-point value by the scale and clamp to [0, 255].
fn scale_clamp_exec(num: i64) -> (r: u8)
    requires
        -1000000000000 <= num <= 1000000000000,
    ensures
        r == scale_clamp(num as int),
{
    if num < 0 {
        0
    } else if num > 255000000 {
        assert(num as int / 1000000 >= 255) by (nonlinear_arith)
            requires num > 255000000;
        255
    } else {
        let q = num / 1000000;
        assert(0 <= num as int / 1000000 <= 255) by (nonlinear_arith)
            requires 0 <= num <= 255000000;
        q as u8
    }
}

/// One pixel of the forward transform.
pub fn px_to_ycbcr(p: [u8; 3]) -> (q: [u8; 3])
    ensures
        q@[0] == y_of(p@[0], p@[1], p@[2]),
        q@[1] == cb_of(p@[0], p@[1], p@[2]),
        q@[2] == cr_of(p@[0], p@[1], p@[2]),
{
    let r = p[0] as i64;
    let g = p[1] as i64;
    let b = p[2] as i64;
    let y = scale_clamp_exec(299000 * r + 587000 * g + 114000 * b);
    let cb = scale_clamp_exec(128000000 - 168736 * r - 331264 * g + 500000 * b);
    let cr = scale_clamp_exec(128000000 + 500000 * r - 418688 * g - 81312 * b);
    [y, cb, cr]
}

/// One pixel of the inverse transform.
pub fn px_to_rgb(p: [u8; 3]) -> (q: [u8; 3])
    ensures
        q@[0] == r_of(p@[0], p@[1], p@[2]),
        q@[1] == g_of(p@[0], p@[1], p@[2]),
        q@[2] == b_of(p@[0], p@[1], p@[2]),
{
    let y = p[0] as i64;
    let cb = p[1] as i64;
    let cr = p[2] as i64;
    let r = scale_clamp_exec(1000000 * y + 1402000 * (cr - 128));
    let g = scale_clamp_exec(1000000 * y - 344136 * (cb - 128) - 714136 * (cr - 128));
    let b = scale_clamp_exec(1000000 * y + 1772000 * (cb - 128));
    [r, g, b]
}

/// Convert an RGB image to YCbCr, pixel by pixel; dimensions are preserved
/// and every channel is clamped to [0, 255] before narrowing.
pub fn rgb_to_ycbcr(img: &ImageBuf) -> (out: ImageBuf)
    requires
        img.wf(),
    ensures
        out.wf(),
        out.width == img.width,
        out.height == img.height,
        forall|x: int, y: int|
            0 <= x < img.width && 0 <= y < img.height ==> {
                &&& #[trigger] out.chan(x, y, 0) == y_of(img.chan(x, y, 0), img.chan(x, y, 1), img.chan(x, y, 2))
                &&& out.chan(x, y, 1) == cb_of(img.chan(x, y, 0), img.chan(x, y, 1), img.chan(x, y, 2))
                &&& out.chan(x, y, 2) == cr_of(img.chan(x, y, 0), img.chan(x, y, 1), img.chan(x, y, 2))
            },
{
    let mut rows: Vec<Vec<[u8; 3]>> = Vec::new();
    let mut y: usize = 0;
    while y < img.height as usize
        invariant
            img.wf(),
            y <= img.height as usize,
            rows@.len() == y as int,
            forall|yy: int| 0 <= yy < y as int ==> (#[trigger] rows@[yy])@.len() == img.width as int,
            forall|xx: int, yy: int|
                0 <= xx < img.width && 0 <= yy < y as int ==> {
                    &&& (#[trigger] rows@[yy]@[xx])@[0] == y_of(img.chan(xx, yy, 0), img.chan(xx, yy, 1), img.chan(xx, yy, 2))
                    &&& rows@[yy]@[xx]@[1] == cb_of(img.chan(xx, yy, 0), img.chan(xx, yy, 1), img.chan(xx, yy, 2))
                    &&& rows@[yy]@[xx]@[2] == cr_of(img.chan(xx, yy, 0), img.chan(xx, yy, 1), img.chan(xx, yy, 2))
                },
        decreases img.height as int - y as int,
    {
        let mut row: Vec<[u8; 3]> = Vec::new();
        let mut x: usize = 0;
        while x < img.width as usize
            invariant
                img.wf(),
                y < img.height as usize,
                x <= img.width as usize,
                row@.len() == x as int,
                forall|xx: int|
                    0 <= xx < x as int ==> {
                        &&& (#[trigger] row@[xx])@[0] == y_of(img.chan(xx, y as int, 0), img.chan(xx, y as int, 1), img.chan(xx, y as int, 2))
                        &&& row@[xx]@[1] == cb_of(img.chan(xx, y as int, 0), img.chan(xx, y as int, 1), img.chan(xx, y as int, 2))
                        &&& row@[xx]@[2] == cr_of(img.chan(xx, y as int, 0), img.chan(xx, y as int, 1), img.chan(xx, y as int, 2))
                    },
            decreases img.width as int - x as int,
        {
            let p = img.get_pixel(x as u32, y as u32);
            row.push(px_to_ycbcr(p));
            x = x + 1;
        }
        rows.push(row);
        y = y + 1;
    }
    ImageBuf { width: img.width, height: img.height, rows }
}

/// Convert a YCbCr image back to RGB, pixel by pixel; dimensions are
/// preserved and every channel is clamped to [0, 255] before narrowing.
pub fn ycbcr_to_rgb(img: &ImageBuf) -> (out: ImageBuf)
    requires
        img.wf(),
    ensures
        out.wf(),
        out.width == img.width,
        out.height == img.height,
        forall|x: int, y: int|
            0 <= x < img.width && 0 <= y < img.height ==> {
                &&& #[trigger] out.chan(x, y, 0) == r_of(img.chan(x, y, 0), img.chan(x, y, 1), img.chan(x, y, 2))
                &&& out.chan(x, y, 1) == g_of(img.chan(x, y, 0), img.chan(x, y, 1), img.chan(x, y, 2))
                &&& out.chan(x, y, 2) == b_of(img.chan(x, y, 0), img.chan(x, y, 1), img.chan(x, y, 2))
            },
{
    let mut rows: Vec<Vec<[u8; 3]>> = Vec::new();
    let mut y: usize = 0;
    while y < img.height as usize
        invariant
            img.wf(),
            y <= img.height as usize,
            rows@.len() == y as int,
            forall|yy: int| 0 <= yy < y as int ==> (#[trigger] rows@[yy])@.len() == img.width as int,
            forall|xx: int, yy: int|
                0 <= xx < img.width && 0 <= yy < y as int ==> {
                    &&& (#[trigger] rows@[yy]@[xx])@[0] == r_of(img.chan(xx, yy, 0), img.chan(xx, yy, 1), img.chan(xx, yy, 2))
                    &&& rows@[yy]@[xx]@[1] == g_of(img.chan(xx, yy, 0), img.chan(xx, yy, 1), img.chan(xx, yy, 2))
                    &&& rows@[yy]@[xx]@[2] == b_of(img.chan(xx, yy, 0), img.chan(xx, yy, 1), img.chan(xx, yy, 2))
                },
        decreases img.height as int - y as int,
    {
        let mut row: Vec<[u8; 3]> = Vec::new();
        let mut x: usize = 0;
        while x < img.width as usize
            invariant
                img.wf(),
                y < img.height as usize,
                x <= img.width as usize,
                row@.len() == x as int,
                forall|xx: int|
                    0 <= xx < x as int ==> {
                        &&& (#[trigger] row@[xx])@[0] == r_of(img.chan(xx, y as int, 0), img.chan(xx, y as int, 1), img.chan(xx, y as int, 2))
                        &&& row@[xx]@[1] == g_of(img.chan(xx, y as int, 0), img.chan(xx, y as int, 1), img.chan(xx, y as int, 2))
                        &&& row@[xx]@[2] == b_of(img.chan(xx, y as int, 0), img.chan(xx, y as int, 1), img.chan(xx, y as int, 2))
                    },
            decreases img.width as int - x as int,
        {
            let p = img.get_pixel(x as u32, y as u32);
            row.push(px_to_rgb(p));
            x = x + 1;
        }
        rows.push(row);
        y = y + 1;
    }
    ImageBuf { width: img.width, height: img.height, rows }
}

} // verus!
