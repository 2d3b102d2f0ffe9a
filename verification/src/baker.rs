//! The discretized baker's map: per-pixel coordinate formulas, their
//! in-bounds proof, and the whole-frame transform.

use crate::frame::Color;
use crate::frame::Frame;
use crate::frame::FrameView;
use vstd::arithmetic::div_mod::lemma_basic_div;
use vstd::arithmetic::div_mod::lemma_div_is_ordered;
use vstd::arithmetic::div_mod::lemma_div_pos_is_pos;
use vstd::arithmetic::div_mod::lemma_fundamental_div_mod_converse;
use vstd::prelude::*;

verus! {

/// Which baker's-map variant to apply.
#[derive(Clone, Copy, PartialEq, Eq, Structural, Debug)]
pub enum Variant {
    /// Stretch the square, cut the right half off and stack it on top.
    Unfolded,
    /// Stretch the square and fold the right half back over the left.
    Folded,
}

/// `0` if destination column `x` lies in the left half of a row of length
/// `dim`, else `dim`.
pub open spec fn spec_scaled(x: int, dim: int) -> int {
    (2 * x / dim) * dim
}

/// The source row read for destination `(x, y)`.
pub open spec fn spec_src_row(v: Variant, x: int, y: int, dim: int) -> int {
    match v {
        Variant::Unfolded => (y + spec_scaled(x, dim)) / 2,
        Variant::Folded => if 2 * x < dim {
            y / 2
        } else {
            (dim - 1) - y / 2
        },
    }
}

/// The source column read for destination `(x, y)`.
pub open spec fn spec_src_col(v: Variant, x: int, dim: int) -> int {
    match v {
        Variant::Unfolded => 2 * x - spec_scaled(x, dim),
        Variant::Folded => if 2 * x < dim {
            2 * x
        } else {
            2 * (dim - 1) - 2 * x
        },
    }
}

/// The pixel written to destination `(x, y)`: the source pixel's red, green
/// and blue channels, with the alpha channel reset to 255.
pub open spec fn spec_output_pixel(f: FrameView, v: Variant, x: int, y: int) -> Color {
    let c = f.at(spec_src_col(v, x, f.dim as int), spec_src_row(v, x, y, f.dim as int));
    Color { r: c.r, g: c.g, b: c.b, a: 255 }
}

/// One application of the chosen variant to a whole frame.
pub open spec fn spec_transform(f: FrameView, v: Variant) -> FrameView {
    FrameView {
        dim: f.dim,
        pixels: Seq::new(
            f.dim * f.dim,
            |i: int| spec_output_pixel(f, v, i % (f.dim as int), i / (f.dim as int)),
        ),
    }
}

/// The half selector takes exactly the two values its name promises.
pub proof fn lemma_scaled_is_half_selector(x: int, dim: int)
    requires
        1 <= dim,
        0 <= x < dim,
    ensures
        2 * x < dim ==> spec_scaled(x, dim) == 0,
        2 * x >= dim ==> spec_scaled(x, dim) == dim,
{
    if 2 * x < dim {
        lemma_basic_div(2 * x, dim);
        assert((2 * x / dim) * dim == 0) by (nonlinear_arith)
            requires
                2 * x / dim == 0,
        ;
    } else {
        lemma_fundamental_div_mod_converse(2 * x, dim, 1, 2 * x - dim);
        assert((2 * x / dim) * dim == dim) by (nonlinear_arith)
            requires
                2 * x / dim == 1,
        ;
    }
}

/// Both variants send every destination coordinate to an in-range source
/// coordinate, for every side length down to one.
pub proof fn lemma_src_in_bounds(v: Variant, x: int, y: int, dim: int)
    requires
        1 <= dim,
        0 <= x < dim,
        0 <= y < dim,
    ensures
        0 <= spec_src_row(v, x, y, dim) < dim,
        0 <= spec_src_col(v, x, dim) < dim,
{
    lemma_scaled_is_half_selector(x, dim);
    match v {
        Variant::Unfolded => {
            if 2 * x < dim {
                lemma_div_pos_is_pos(y, 2);
                lemma_div_is_ordered(y, 2 * dim - 2, 2);
            } else {
                lemma_div_pos_is_pos(y + dim, 2);
                lemma_div_is_ordered(y + dim, 2 * dim - 1, 2);
                lemma_fundamental_div_mod_converse(2 * dim - 1, 2, dim - 1, 1);
            }
        },
        Variant::Folded => {
            lemma_div_pos_is_pos(y, 2);
            lemma_div_is_ordered(y, dim - 1, 2);
            lemma_div_is_ordered(0, y, 2);
        },
    }
}

/// Indexing a transformed frame at `(x, y)` yields the formula pixel.
pub proof fn lemma_transform_at(f: FrameView, v: Variant, x: int, y: int)
    requires
        f.wf(),
        0 <= x < f.dim,
        0 <= y < f.dim,
    ensures
        spec_transform(f, v).at(x, y) == spec_output_pixel(f, v, x, y),
{
    let dim: int = f.dim as int;
    assert(0 <= y * dim + x < dim * dim) by (nonlinear_arith)
        requires
            0 <= x < dim,
            0 <= y < dim,
    ;
    lemma_fundamental_div_mod_converse(y * dim + x, dim, y, x);
}

/// Determinism: applying the same variant to equal frames gives equal results.
pub proof fn lemma_transform_deterministic(a: FrameView, b: FrameView, v: Variant)
    requires
        a == b,
    ensures
        spec_transform(a, v) == spec_transform(b, v),
{
}

/// No color is created or blended: every pixel of a transformed frame copies
/// the red, green and blue channels of some pixel of the input frame.
pub proof fn lemma_transform_colors_from_input(f: FrameView, v: Variant, x: int, y: int)
    requires
        f.wf(),
        0 <= x < f.dim,
        0 <= y < f.dim,
    ensures
        exists|sx: int, sy: int|
            0 <= sx < f.dim && 0 <= sy < f.dim && (#[trigger] f.at(sx, sy)).r == spec_transform(
                f,
                v,
            ).at(x, y).r && f.at(sx, sy).g == spec_transform(f, v).at(x, y).g && f.at(sx, sy).b
                == spec_transform(f, v).at(x, y).b,
{
    let dim: int = f.dim as int;
    lemma_src_in_bounds(v, x, y, dim);
    lemma_transform_at(f, v, x, y);
    let sx: int = spec_src_col(v, x, dim);
    let sy: int = spec_src_row(v, x, y, dim);
    assert(0 <= sx < f.dim && 0 <= sy < f.dim && f.at(sx, sy).r == spec_transform(f, v).at(x, y).r
        && f.at(sx, sy).g == spec_transform(f, v).at(x, y).g && f.at(sx, sy).b == spec_transform(
        f,
        v,
    ).at(x, y).b);
}

/// Apply one step of the chosen baker's-map variant to a frame.
///
/// The output is a pure function of the input frame's contents and the
/// variant: same side length, and every destination pixel `(x, y)` holds the
/// red, green and blue channels of the source pixel given by the variant's
/// integer formulas, with alpha reset to 255.
pub fn transform(frame: &Frame, v: Variant) -> (out: Frame)
    requires
        frame.wf(),
    ensures
        out.wf(),
        out@ == spec_transform(frame@, v),
{
    let dim: usize = frame.dim();
    proof {
        frame.lemma_dim_square_bounded();
    }
    let ghost target = spec_transform(frame@, v);
    let mut pixels: Vec<Color> = Vec::new();
    let mut y: usize = 0;
    while y < dim
        invariant
            frame.wf(),
            frame@.dim == dim,
            1 <= dim,
            dim * dim <= usize::MAX,
            y <= dim,
            pixels@.len() == y * dim,
            forall|i: int| 0 <= i < pixels@.len() ==> pixels@[i] == target.pixels[i],
            target == spec_transform(frame@, v),
        decreases dim - y,
    {
        let mut x: usize = 0;
        proof {
            assert(y * dim + dim <= dim * dim) by (nonlinear_arith)
                requires
                    y < dim,
            ;
        }
        while x < dim
            invariant
                frame.wf(),
                frame@.dim == dim,
                1 <= dim,
                dim * dim <= usize::MAX,
                y < dim,
                x <= dim,
                y * dim + dim <= dim * dim,
                pixels@.len() == y * dim + x,
                forall|i: int| 0 <= i < pixels@.len() ==> pixels@[i] == target.pixels[i],
                target == spec_transform(frame@, v),
            decreases dim - x,
        {
            proof {
                assert(2 * dim <= dim * dim + 1) by (nonlinear_arith)
                    requires
                        1 <= dim,
                ;
                lemma_scaled_is_half_selector(x as int, dim as int);
                lemma_src_in_bounds(v, x as int, y as int, dim as int);
            }
            let sr: usize;
            let sc: usize;
            match v {
                Variant::Unfolded => {
                    let scaled: usize = (2 * x / dim) * dim;
                    sr = (y + scaled) / 2;
                    sc = 2 * x - scaled;
                },
                Variant::Folded => {
                    if 2 * x < dim {
                        sr = y / 2;
                        sc = 2 * x;
                    } else {
                        sr = (dim - 1) - y / 2;
                        sc = 2 * (dim - 1) - 2 * x;
                    }
                },
            }
            let c: Color = frame.get(sc, sr);
            pixels.push(Color { r: c.r, g: c.g, b: c.b, a: 255 });
            proof {
                let i: int = y * dim + x;
                lemma_fundamental_div_mod_converse(i, dim as int, y as int, x as int);
                assert(pixels@[i] == target.pixels[i]);
            }
            x = x + 1;
        }
        y = y + 1;
        proof {
            assert(y * dim == (y - 1) * dim + dim) by (nonlinear_arith);
        }
    }
    proof {
        assert(pixels@ =~= target.pixels);
    }
    let out = Frame::from_parts(dim, pixels);
    proof {
        assert(out@ =~= target);
    }
    out
}

} // verus!
