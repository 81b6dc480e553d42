use vstd::prelude::*;

verus! {

/// A rectangular raster of three-channel pixels, stored row-major.
/// Channel order is whatever color space the image currently carries
/// (RGB before conversion, YCbCr after).
pub struct ImageBuf {
    pub width: u32,
    pub height: u32,
    pub rows: Vec<Vec<[u8; 3]>>,
}

impl ImageBuf {
    /// Shape invariant: exactly `height` rows of exactly `width` pixels.
    pub open spec fn wf(self) -> bool {
        &&& self.rows@.len() == self.height as int
        &&& forall|y: int|
            0 <= y < self.height as int ==> (#[trigger] self.rows@[y])@.len() == self.width as int
    }

    /// Channel `c` of the pixel at column `x`, row `y`.
    pub open spec fn chan(self, x: int, y: int, c: int) -> u8 {
        self.rows@[y]@[x]@[c]
    }

    /// An all-black image of the given dimensions.
    pub fn new(width: u32, height: u32) -> (r: ImageBuf)
        ensures
            r.wf(),
            r.width == width,
            r.height == height,
            forall|x: int, y: int, c: int|
                0 <= x < width && 0 <= y < height && 0 <= c < 3 ==> r.chan(x, y, c) == 0u8,
    {
        let mut rows: Vec<Vec<[u8; 3]>> = Vec::new();
        let mut y: usize = 0;
        while y < height as usize
            invariant
                y <= height as usize,
                rows@.len() == y as int,
                forall|yy: int| 0 <= yy < y as int ==> (#[trigger] rows@[yy])@.len() == width as int,
                forall|xx: int, yy: int, cc: int|
                    0 <= xx < width && 0 <= yy < y as int && 0 <= cc < 3
                        ==> rows@[yy]@[xx]@[cc] == 0u8,
            decreases height as int - y as int,
        {
            let mut row: Vec<[u8; 3]> = Vec::new();
            let mut x: usize = 0;
            while x < width as usize
                invariant
                    x <= width as usize,
                    row@.len() == x as int,
                    forall|xx: int, cc: int|
                        0 <= xx < x as int && 0 <= cc < 3 ==> row@[xx]@[cc] == 0u8,
                decreases width as int - x as int,
            {
                row.push([0u8, 0u8, 0u8]);
                x = x + 1;
            }
            rows.push(row);
            y = y + 1;
        }
        ImageBuf { width, height, rows }
    }

    /// The pixel at `(x, y)`.
    pub fn get_pixel(&self, x: u32, y: u32) -> (p: [u8; 3])
        requires
            self.wf(),
            x < self.width,
            y < self.height,
        ensures
            forall|c: int| 0 <= c < 3 ==> p@[c] == self.chan(x as int, y as int, c),
    {
        self.rows[y as usize][x as usize]
    }
}

} // verus!
