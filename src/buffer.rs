use vstd::prelude::*;
use crate::error::SessionError;

verus! {

/// Bytes that one pixel of the 32-bit ARGB format occupies.
pub const BYTES_PER_PIXEL: u32 = 4;

/// Largest value of the protocol's signed 32-bit integers, which carry the
/// geometry and the size of a shared-memory pool.
pub const WIRE_INT_MAX: u32 = 0x7fff_ffff;

/// The pixel format of a shared-memory buffer.
#[derive(Clone, Copy, Debug, PartialEq, Eq)]
pub enum PixelFormat {
    /// 32-bit ARGB: A:R:G:B 8:8:8:8 in a little-endian word.
    Argb8888,
}

/// A colour with an alpha channel, one byte per channel.
#[derive(Clone, Copy, Debug, PartialEq, Eq)]
pub struct Color {
    pub alpha: u8,
    pub red: u8,
    pub green: u8,
    pub blue: u8,
}

/// The geometry of a shared-memory buffer, in the protocol's signed integers.
#[derive(Clone, Copy, Debug, PartialEq, Eq)]
pub struct BufferLayout {
    pub width: i32,
    pub height: i32,
    pub stride: i32,
    pub size: i32,
    pub format: PixelFormat,
}

/// Whether a buffer of this many columns and rows can be described on the
/// wire: both positive and the byte size within a signed 32-bit integer.
pub open spec fn fits_wire(width: int, height: int) -> bool {
    &&& width > 0
    &&& height > 0
    &&& width * height * BYTES_PER_PIXEL <= WIRE_INT_MAX
}

impl BufferLayout {
    /// Rows without padding: the stride is the width in bytes, and the pool
    /// holds exactly the rows.
    pub open spec fn wf(&self) -> bool {
        &&& fits_wire(self.width as int, self.height as int)
        &&& self.stride == self.width * BYTES_PER_PIXEL
        &&& self.size == self.stride * self.height
    }

    /// The layout of a `width` by `height` ARGB buffer.
    pub fn new(width: u32, height: u32) -> (r: Result<BufferLayout, SessionError>)
        ensures
            r is Ok <==> fits_wire(width as int, height as int),
            r is Err ==> r == Err::<BufferLayout, SessionError>(SessionError::Allocation),
            r matches Ok(l) ==> {
                &&& l.wf()
                &&& l.width == width
                &&& l.height == height
                &&& l.stride == width * BYTES_PER_PIXEL
                &&& l.size == width * height * BYTES_PER_PIXEL
                &&& l.format == PixelFormat::Argb8888
            },
    {
        if width == 0 || height == 0 || width > WIRE_INT_MAX / BYTES_PER_PIXEL {
            proof {
                if width > 0 && height > 0 {
                    assert(width * height >= width) by (nonlinear_arith)
                        requires height >= 1;
                }
            }
            return Err(SessionError::Allocation);
        }
        let stride: u32 = width * BYTES_PER_PIXEL;
        if height > WIRE_INT_MAX / stride {
            proof {
                assert(stride * height > WIRE_INT_MAX) by (nonlinear_arith)
                    requires height > WIRE_INT_MAX / stride, stride > 0;
                assert(width * height * BYTES_PER_PIXEL == stride * height) by (nonlinear_arith)
                    requires stride == width * BYTES_PER_PIXEL;
            }
            return Err(SessionError::Allocation);
        }
        proof {
            assert(stride * height <= WIRE_INT_MAX) by (nonlinear_arith)
                requires height <= WIRE_INT_MAX / stride, stride > 0;
            assert(width * height * BYTES_PER_PIXEL == stride * height) by (nonlinear_arith)
                requires stride == width * BYTES_PER_PIXEL;
        }
        let size: u32 = stride * height;
        Ok(BufferLayout {
            width: width as i32,
            height: height as i32,
            stride: stride as i32,
            size: size as i32,
            format: PixelFormat::Argb8888,
        })
    }

    /// Whether the layout is well formed (see `wf`).
    pub fn is_well_formed(&self) -> (r: bool)
        ensures
            r == self.wf(),
    {
        if self.width <= 0 || self.height <= 0 {
            return false;
        }
        let w: u64 = self.width as u64;
        let h: u64 = self.height as u64;
        proof {
            assert(w * h <= 0x7fff_ffff * 0x7fff_ffff) by (nonlinear_arith)
                requires w <= 0x7fff_ffff, h <= 0x7fff_ffff;
        }
        let bytes: u64 = w * h * 4;
        let r = bytes <= WIRE_INT_MAX as u64
            && self.stride as i64 == (w * 4) as i64
            && self.size as i64 == bytes as i64;
        proof {
            assert(w * h * 4 == (w * 4) * h) by (nonlinear_arith);
        }
        r
    }
}

/// The four bytes of one pixel as they lie in memory: the ARGB word stored
/// little-endian, so blue comes first and alpha last.
pub open spec fn pixel_byte(c: Color, k: int) -> u8 {
    if k == 0 {
        c.blue
    } else if k == 1 {
        c.green
    } else if k == 2 {
        c.red
    } else {
        c.alpha
    }
}

/// The contents of a buffer of `pixels` pixels, each of colour `c`.
pub open spec fn solid_bytes(c: Color, pixels: nat) -> Seq<u8> {
    Seq::new(pixels * 4, |i: int| pixel_byte(c, i % 4))
}

/// The bytes of a buffer of this layout in which every pixel has colour `c`,
/// ready to be copied into the buffer's shared memory.
pub fn solid_frame(layout: &BufferLayout, c: Color) -> (r: Vec<u8>)
    requires
        layout.wf(),
    ensures
        r@ == solid_bytes(c, (layout.width * layout.height) as nat),
        r@.len() == layout.size,
{
    let pixels: usize = (layout.width as usize) * (layout.height as usize);
    proof {
        assert(layout.width * layout.height <= layout.width * layout.height * 4) by (nonlinear_arith)
            requires layout.width > 0, layout.height > 0;
        assert(layout.size == layout.width * layout.height * 4) by (nonlinear_arith)
            requires layout.stride == layout.width * 4, layout.size == layout.stride * layout.height;
    }
    let mut out: Vec<u8> = Vec::with_capacity(layout.size as usize);
    let mut n: usize = 0;
    while n < pixels
        invariant
            pixels == layout.width * layout.height,
            pixels * 4 <= WIRE_INT_MAX,
            n <= pixels,
            out@.len() == n * 4,
            forall|i: int| 0 <= i < out@.len() ==> #[trigger] out@[i] == pixel_byte(c, i % 4),
        decreases pixels - n,
    {
        let ghost start = out@.len();
        out.push(c.blue);
        out.push(c.green);
        out.push(c.red);
        out.push(c.alpha);
        proof {
            assert forall|i: int| 0 <= i < out@.len() implies #[trigger] out@[i] == pixel_byte(c, i % 4) by {
                if i >= start {
                    assert(i % 4 == i - start) by (nonlinear_arith)
                        requires start == n * 4, start <= i < start + 4;
                }
            }
        }
        n = n + 1;
    }
    assert(out@ =~= solid_bytes(c, pixels as nat));
    out
}

} // verus!
