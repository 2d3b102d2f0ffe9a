//! Square pixel buffers and their mathematical view.

use vstd::arithmetic::div_mod::lemma_fundamental_div_mod;
use vstd::arithmetic::div_mod::lemma_fundamental_div_mod_converse;
use vstd::prelude::*;

verus! {

/// One pixel: red, green, blue and alpha channels, one byte each.
#[derive(Clone, Copy, PartialEq, Eq, Structural, Debug)]
pub struct Color {
    pub r: u8,
    pub g: u8,
    pub b: u8,
    pub a: u8,
}

/// The mathematical content of a frame: its side length and its pixel grid,
/// stored row-major.
#[verifier::ext_equal]
pub struct FrameView {
    pub dim: nat,
    pub pixels: Seq<Color>,
}

impl FrameView {
    /// A frame is well formed when it is a non-empty square.
    pub open spec fn wf(self) -> bool {
        &&& self.dim >= 1
        &&& self.pixels.len() == self.dim * self.dim
    }

    /// The pixel at column `x` of row `y`.
    pub open spec fn at(self, x: int, y: int) -> Color {
        self.pixels[y * self.dim + x]
    }
}

/// Why a frame cannot be built.
#[derive(Clone, Copy, PartialEq, Eq, Structural, Debug)]
pub enum FrameError {
    /// The requested side length was zero.
    ZeroDimension,
    /// The requested side length squared does not fit in `usize`.
    TooLarge,
    /// The pixel vector does not hold exactly `dim * dim` entries.
    PixelCountMismatch,
}

/// A square grid of pixels, `dim` columns by `dim` rows, stored row-major.
pub struct Frame {
    dim: usize,
    pixels: Vec<Color>,
}

impl View for Frame {
    type V = FrameView;

    closed spec fn view(&self) -> FrameView {
        FrameView { dim: self.dim as nat, pixels: self.pixels@ }
    }
}

impl Frame {
    /// Well-formedness of an executable frame is that of its view.
    pub open spec fn wf(&self) -> bool {
        self@.wf()
    }

    /// In a well-formed frame the pixel count, `dim * dim`, fits in `usize`.
    pub proof fn lemma_dim_square_bounded(&self)
        requires
            self.wf(),
        ensures
            self@.dim * self@.dim <= usize::MAX,
    {
        assert(self.pixels@.len() <= usize::MAX) by {
            vstd::std_specs::vec::axiom_spec_len(&self.pixels);
        }
    }

    /// Wrap a pixel vector already known to fill a `dim`-sided square.
    pub(crate) fn from_parts(dim: usize, pixels: Vec<Color>) -> (f: Frame)
        requires
            dim >= 1,
            pixels@.len() == dim * dim,
        ensures
            f.wf(),
            f@.dim == dim,
            f@.pixels == pixels@,
    {
        Frame { dim, pixels }
    }

    /// Build a frame from a row-major pixel vector, rejecting a zero side
    /// length and a vector of the wrong length.
    pub fn from_pixels(dim: usize, pixels: Vec<Color>) -> (r: Result<Frame, FrameError>)
        ensures
            r is Ok <==> dim >= 1 && pixels@.len() == dim * dim,
            dim == 0 ==> r == Err::<Frame, FrameError>(FrameError::ZeroDimension),
            dim >= 1 && pixels@.len() != dim * dim ==> r == Err::<Frame, FrameError>(
                FrameError::PixelCountMismatch,
            ),
            (r matches Ok(f) ==> f.wf() && f@.dim == dim && f@.pixels == pixels@),
    {
        if dim == 0 {
            return Err(FrameError::ZeroDimension);
        }
        let len: usize = pixels.len();
        if len / dim == dim && len % dim == 0 {
            proof {
                lemma_fundamental_div_mod(len as int, dim as int);
            }
            Ok(Frame { dim, pixels })
        } else {
            proof {
                if pixels@.len() == dim * dim {
                    lemma_fundamental_div_mod_converse(len as int, dim as int, dim as int, 0);
                }
            }
            Err(FrameError::PixelCountMismatch)
        }
    }

    /// The side length of the square.
    pub fn dim(&self) -> (d: usize)
        ensures
            d == self@.dim,
    {
        self.dim
    }

    /// The pixel at column `x` of row `y`.
    pub fn get(&self, x: usize, y: usize) -> (c: Color)
        requires
            self.wf(),
            x < self@.dim,
            y < self@.dim,
        ensures
            c == self@.at(x as int, y as int),
    {
        proof {
            self.lemma_dim_square_bounded();
            assert(y * self.dim + x < self.dim * self.dim) by (nonlinear_arith)
                requires
                    x < self.dim,
                    y < self.dim,
            ;
        }
        let idx: usize = y * self.dim + x;
        self.pixels[idx]
    }

    /// Whether two frames hold bit-identical contents.
    pub fn frame_eq(&self, other: &Frame) -> (r: bool)
        requires
            self.wf(),
            other.wf(),
        ensures
            r == (self@ == other@),
    {
        if self.dim != other.dim {
            return false;
        }
        let n: usize = self.pixels.len();
        let mut i: usize = 0;
        while i < n
            invariant
                self.wf(),
                other.wf(),
                self.dim == other.dim,
                n == self.pixels@.len(),
                n == other.pixels@.len(),
                i <= n,
                forall|j: int| 0 <= j < i ==> self.pixels@[j] == other.pixels@[j],
            decreases n - i,
        {
            let a: Color = self.pixels[i];
            let b: Color = other.pixels[i];
            if a.r != b.r || a.g != b.g || a.b != b.b || a.a != b.a {
                return false;
            }
            i += 1;
        }
        proof {
            assert(self@.pixels =~= other@.pixels);
        }
        true
    }
}

} // verus!
