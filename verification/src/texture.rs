//! RGBA8 texture buffers for the procedurally generated materials.
//!
//! A buffer of `width` by `height` pixels stores them row by row, four
//! bytes (red, green, blue, alpha) per pixel: pixel `(x, y)` is pixel number
//! `y * width + x` and occupies bytes `4 * (y * width + x) ..` of `data`.

use vstd::prelude::*;

verus! {

/// An RGBA color with one byte per channel.
#[derive(Clone, Copy, Debug, PartialEq, Eq, Structural)]
pub struct Color4 {
    pub r: u8,
    pub g: u8,
    pub b: u8,
    pub a: u8,
}

impl Color4 {
    /// The color with the given channels.
    pub fn new(r: u8, g: u8, b: u8, a: u8) -> (c: Self)
        ensures
            c == (Color4 { r, g, b, a }),
    {
        Color4 { r, g, b, a }
    }
}

/// Pixel number `i` of a row-major RGBA byte sequence.
pub open spec fn pixel_of(data: Seq<u8>, i: int) -> Color4 {
    Color4 { r: data[4 * i], g: data[4 * i + 1], b: data[4 * i + 2], a: data[4 * i + 3] }
}

/// The bytes with pixel number `i` replaced by `c`.
pub open spec fn write_pixel(data: Seq<u8>, i: int, c: Color4) -> Seq<u8> {
    data.update(4 * i, c.r).update(4 * i + 1, c.g).update(4 * i + 2, c.b).update(4 * i + 3, c.a)
}

/// A texture being generated.
pub struct TextureBuffer {
    pub width: u32,
    pub height: u32,
    pub data: Vec<u8>,
}

impl TextureBuffer {
    /// The buffer holds four bytes for each of its pixels, and its size fits
    /// the 32-bit arithmetic of its pixel addressing.
    pub open spec fn wf(&self) -> bool {
        &&& self.width * self.height * 4 <= u32::MAX
        &&& self.data@.len() == self.width * self.height * 4
    }

    /// Pixel number `i`.
    pub open spec fn pixel(&self, i: int) -> Color4 {
        pixel_of(self.data@, i)
    }

    /// The number of pixel `(x, y)`.
    pub open spec fn pixel_index(&self, x: int, y: int) -> int {
        y * self.width + x
    }

    /// A `width` by `height` buffer of transparent black pixels.
    pub fn new(width: u32, height: u32) -> (buf: Self)
        requires
            width * height * 4 <= u32::MAX,
        ensures
            buf.wf(),
            buf.width == width,
            buf.height == height,
            forall|k: int| 0 <= k < buf.data@.len() ==> #[trigger] buf.data@[k] == 0,
    {
        proof {
            assert(width * height >= 0) by (nonlinear_arith);
        }
        let len = (width * height * 4) as usize;
        let mut data: Vec<u8> = Vec::new();
        let mut k: usize = 0;
        while k < len
            invariant
                k <= len,
                data@.len() == k,
                forall|j: int| 0 <= j < k ==> #[trigger] data@[j] == 0,
            decreases len - k,
        {
            data.push(0);
            k += 1;
        }
        TextureBuffer { width, height, data }
    }

    /// Set pixel `(x, y)` to `color`; a position outside the buffer leaves
    /// it unchanged.
    pub fn set_pixel(&mut self, x: u32, y: u32, color: Color4)
        requires
            old(self).wf(),
        ensures
            final(self).wf(),
            final(self).width == old(self).width,
            final(self).height == old(self).height,
            if x < old(self).width && y < old(self).height {
                final(self).data@ == write_pixel(
                    old(self).data@,
                    old(self).pixel_index(x as int, y as int),
                    color,
                )
            } else {
                final(self).data@ == old(self).data@
            },
    {
        if x >= self.width || y >= self.height {
            return;
        }
        proof {
            lemma_pixel_in_range(self.width as int, self.height as int, x as int, y as int);
        }
        let idx = ((y * self.width + x) * 4) as usize;
        self.data.set(idx, color.r);
        self.data.set(idx + 1, color.g);
        self.data.set(idx + 2, color.b);
        self.data.set(idx + 3, color.a);
    }

    /// Pixel `(x, y)`; `x` may run past the end of a row as long as the
    /// pixel number stays inside the buffer.
    pub fn get_pixel(&self, x: u32, y: u32) -> (c: Color4)
        requires
            self.wf(),
            y * self.width + x < self.width * self.height,
        ensures
            c == self.pixel(self.pixel_index(x as int, y as int)),
    {
        let idx = ((y * self.width + x) * 4) as usize;
        Color4 {
            r: self.data[idx],
            g: self.data[idx + 1],
            b: self.data[idx + 2],
            a: self.data[idx + 3],
        }
    }
}

/// The samples a normal map reads around a texel to estimate the slope of
/// the height field: the texel's left, right, upper and lower neighbors, and
/// the texel itself in place of a neighbor beyond the border.
#[derive(Clone, Copy, Debug, PartialEq, Eq, Structural)]
pub struct Neighbors {
    pub left: usize,
    pub right: usize,
    pub up: usize,
    pub down: usize,
}

/// Sample numbers of the neighbors of texel `(x, y)` of a row-major
/// `width` by `height` height map, clamped to the border.
pub fn clamped_neighbors(x: u32, y: u32, width: u32, height: u32) -> (n: Neighbors)
    requires
        x < width,
        y < height,
        width * height <= u32::MAX,
    ensures
        n.left == if x > 0 { y * width + x - 1 } else { y * width + x },
        n.right == if x + 1 < width { y * width + x + 1 } else { y * width + x },
        n.up == if y > 0 { (y - 1) * width + x } else { y * width + x },
        n.down == if y + 1 < height { (y + 1) * width + x } else { y * width + x },
        n.left < width * height,
        n.right < width * height,
        n.up < width * height,
        n.down < width * height,
{
    proof {
        lemma_pixel_in_range(width as int, height as int, x as int, y as int);
        if x + 1 < width {
            lemma_pixel_in_range(width as int, height as int, x + 1, y as int);
        }
        if y > 0 {
            assert((y - 1) * width + x == y * width + x - width) by (nonlinear_arith);
        }
        if y + 1 < height {
            assert((y + 1) * width + x == y * width + x + width) by (nonlinear_arith);
            lemma_pixel_in_range(width as int, height as int, x as int, y + 1);
        }
    }
    let idx = (y * width + x) as usize;
    let w = width as usize;
    let left = if x > 0 {
        idx - 1
    } else {
        idx
    };
    let right = if x < width - 1 {
        idx + 1
    } else {
        idx
    };
    let up = if y > 0 {
        idx - w
    } else {
        idx
    };
    let down = if y < height - 1 {
        idx + w
    } else {
        idx
    };
    Neighbors { left, right, up, down }
}

proof fn lemma_pixel_in_range(w: int, h: int, x: int, y: int)
    requires
        0 <= x < w,
        0 <= y < h,
    ensures
        0 <= y * w + x < w * h,
{
    assert(y * w + x < (y + 1) * w) by (nonlinear_arith)
        requires
            x < w,
    ;
    assert((y + 1) * w <= h * w) by (nonlinear_arith)
        requires
            y + 1 <= h,
            w >= 0,
    ;
    assert(0 <= y * w) by (nonlinear_arith)
        requires
            y >= 0,
            w >= 0,
    ;
}

/// Reading a pixel gives back what was last written to it, and writing a
/// pixel changes no other pixel.
pub proof fn law_pixel_read_after_write(data: Seq<u8>, count: int, i: int, j: int, c: Color4)
    requires
        data.len() == 4 * count,
        0 <= i < count,
        0 <= j < count,
    ensures
        pixel_of(write_pixel(data, i, c), i) == c,
        j != i ==> pixel_of(write_pixel(data, i, c), j) == pixel_of(data, j),
        write_pixel(data, i, c).len() == data.len(),
{
}

/// A pixel written inside the buffer lands at the pixel number that the
/// buffer reads it back from.
pub proof fn law_pixel_in_buffer(buf: TextureBuffer, x: u32, y: u32)
    requires
        buf.wf(),
        x < buf.width,
        y < buf.height,
    ensures
        0 <= buf.pixel_index(x as int, y as int) < buf.width * buf.height,
{
    lemma_pixel_in_range(buf.width as int, buf.height as int, x as int, y as int);
}

/// Writing pixel `i` stores its red, green, blue and alpha bytes at
/// `4i`, `4i + 1`, `4i + 2` and `4i + 3` and leaves every other byte as it
/// was; pixel `i` is read from those same four bytes.
pub proof fn law_pixel_bytes(data: Seq<u8>, count: int, i: int, c: Color4, k: int)
    requires
        data.len() == 4 * count,
        0 <= i < count,
        0 <= k < data.len(),
    ensures
        ({
            let w = write_pixel(data, i, c);
            &&& w[4 * i] == c.r && w[4 * i + 1] == c.g && w[4 * i + 2] == c.b && w[4 * i + 3] == c.a
            &&& (k < 4 * i || 4 * i + 4 <= k) ==> w[k] == data[k]
            &&& pixel_of(data, i).r == data[4 * i] && pixel_of(data, i).g == data[4 * i + 1]
            &&& pixel_of(data, i).b == data[4 * i + 2] && pixel_of(data, i).a == data[4 * i + 3]
        }),
{
}

} // verus!
