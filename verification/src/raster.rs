//! Integer-valued bookkeeping types of the screen-space rasterizer demo.
//!
//! The rasterizer's floating-point pipeline itself lives outside the
//! verified core; these are the buffer selectors and handles it trades
//! in, together with the frame-buffer index arithmetic, which is exact.

use vstd::prelude::*;

verus! {

/// Which buffers a clear operation should reset.
pub enum Buffer {
    Color,
    Depth,
    Both,
}

/// What kind of primitive a draw call rasterizes.
pub enum Primitive {
    Line,
    Triangle,
}

/// Handle to a loaded vertex-position buffer.
#[derive(Clone, Copy, Debug, PartialEq, Eq, Structural)]
pub struct PosBufId(pub usize);

/// Handle to a loaded index buffer.
#[derive(Clone, Copy, Debug, PartialEq, Eq, Structural)]
pub struct IndBufId(pub usize);

/// Handle to a loaded per-vertex colour buffer.
#[derive(Clone, Copy, Debug, PartialEq, Eq, Structural)]
pub struct ColBufId(pub usize);

/// The frame-buffer slot of pixel `(x, y)`: rows are stored bottom-up,
/// so row `y` of the image is row `height - 1 - y` of the buffer.
pub fn frame_index(width: u64, height: u64, x: u64, y: u64) -> (r: u64)
    requires
        x < width,
        y < height,
        width * height <= u64::MAX,
    ensures
        r as int == (height - 1 - y) * width + x,
        (r as int) < width * height,
{
    proof {
        assert((height - 1 - y as int) * width + x < width * height) by (nonlinear_arith)
            requires
                x < width,
                y < height,
        ;
        assert((height - 1 - y as int) * width >= 0) by (nonlinear_arith)
            requires
                y < height,
                width >= 1,
        ;
        assert((height - 1 - y as int) * width <= width * height) by (nonlinear_arith)
            requires
                y < height,
        ;
    }
    (height - 1 - y) * width + x
}

} // verus!
