//! Building the first frame: a deterministic two-color split, or random
//! noise.

use crate::frame::Color;
use crate::frame::Frame;
use crate::frame::FrameError;
use vstd::arithmetic::div_mod::lemma_fundamental_div_mod_converse;
use vstd::prelude::*;

verus! {

/// How the first frame of a run is produced.
#[derive(Clone, Copy, PartialEq, Eq, Structural, Debug)]
pub enum InitMode {
    /// Top half pure red, bottom half (the middle row included) pure blue.
    Split,
    /// Every pixel's red, green and blue channels drawn at random.
    Random,
}

/// The split-mode color of a pixel in row `y` of a `dim`-sided square: red
/// strictly above the midline, blue from the midline down.
pub open spec fn spec_split_color(y: int, dim: int) -> Color {
    if 2 * y < dim {
        Color { r: 255, g: 0, b: 0, a: 255 }
    } else {
        Color { r: 0, g: 0, b: 255, a: 255 }
    }
}

/// Relies on `rand::random::<u8>`: one byte of the thread's generator.
/// Nothing is promised of its value.
#[verifier::external_body]
fn random_byte() -> u8 {
    rand::random::<u8>()
}

/// Build the initial `dim`-sided square frame.
///
/// A zero side length and a square that does not fit in `usize` are rejected,
/// each with its own error. On success the frame is well formed, every pixel's
/// alpha channel is 255, and in split mode every pixel is exactly the split
/// color of its row; in random mode the color channels are drawn fresh from a
/// non-deterministic source.
pub fn create(dim: usize, mode: InitMode) -> (r: Result<Frame, FrameError>)
    ensures
        r is Ok <==> 1 <= dim && dim * dim <= usize::MAX,
        dim == 0 ==> r == Err::<Frame, FrameError>(FrameError::ZeroDimension),
        1 <= dim && dim * dim > usize::MAX ==> r == Err::<Frame, FrameError>(FrameError::TooLarge),
        (r matches Ok(f) ==> {
            &&& f.wf()
            &&& f@.dim == dim
            &&& forall|x: int, y: int|
                0 <= x < dim && 0 <= y < dim ==> (#[trigger] f@.at(x, y)).a == 255
            &&& mode == InitMode::Split ==> forall|x: int, y: int|
                0 <= x < dim && 0 <= y < dim ==> #[trigger] f@.at(x, y) == spec_split_color(
                    y,
                    dim as int,
                )
        }),
{
    if dim == 0 {
        return Err(FrameError::ZeroDimension);
    }
    let total: usize = match dim.checked_mul(dim) {
        Some(t) => t,
        None => {
            return Err(FrameError::TooLarge);
        },
    };
    let mut pixels: Vec<Color> = Vec::new();
    let mut y: usize = 0;
    while y < dim
        invariant
            1 <= dim,
            total == dim * dim,
            y <= dim,
            pixels@.len() == y * dim,
            forall|i: int| 0 <= i < pixels@.len() ==> (#[trigger] pixels@[i]).a == 255,
            mode == InitMode::Split ==> forall|i: int|
                0 <= i < pixels@.len() ==> #[trigger] pixels@[i] == spec_split_color(
                    i / (dim as int),
                    dim as int,
                ),
        decreases dim - y,
    {
        let mut x: usize = 0;
        proof {
            assert(y * dim + dim <= dim * dim) by (nonlinear_arith)
                requires
                    y < dim,
            ;
            assert(2 * dim <= dim * dim + 1) by (nonlinear_arith)
                requires
                    1 <= dim,
            ;
        }
        while x < dim
            invariant
                1 <= dim,
                total == dim * dim,
                2 * dim <= dim * dim + 1,
                y < dim,
                x <= dim,
                y * dim + dim <= dim * dim,
                pixels@.len() == y * dim + x,
                forall|i: int| 0 <= i < pixels@.len() ==> (#[trigger] pixels@[i]).a == 255,
                mode == InitMode::Split ==> forall|i: int|
                    0 <= i < pixels@.len() ==> #[trigger] pixels@[i] == spec_split_color(
                        i / (dim as int),
                        dim as int,
                    ),
            decreases dim - x,
        {
            let c: Color = match mode {
                InitMode::Split => {
                    if 2 * y < dim {
                        Color { r: 255, g: 0, b: 0, a: 255 }
                    } else {
                        Color { r: 0, g: 0, b: 255, a: 255 }
                    }
                },
                InitMode::Random => {
                    let cr: u8 = random_byte();
                    let cg: u8 = random_byte();
                    let cb: u8 = random_byte();
                    Color { r: cr, g: cg, b: cb, a: 255 }
                },
            };
            pixels.push(c);
            proof {
                let i: int = y * dim + x;
                lemma_fundamental_div_mod_converse(i, dim as int, y as int, x as int);
            }
            x = x + 1;
        }
        y = y + 1;
        proof {
            assert(y * dim == (y - 1) * dim + dim) by (nonlinear_arith);
        }
    }
    let f = Frame::from_parts(dim, pixels);
    proof {
        assert forall|x: int, y: int| 0 <= x < dim && 0 <= y < dim implies (#[trigger] f@.at(
            x,
            y,
        )).a == 255 && (mode == InitMode::Split ==> f@.at(x, y) == spec_split_color(
            y,
            dim as int,
        )) by {
            assert(0 <= y * (dim as int) + x < dim * dim) by (nonlinear_arith)
                requires
                    0 <= x < dim,
                    0 <= y < dim,
            ;
            lemma_fundamental_div_mod_converse(y * (dim as int) + x, dim as int, y, x);
        }
    }
    Ok(f)
}

} // verus!
