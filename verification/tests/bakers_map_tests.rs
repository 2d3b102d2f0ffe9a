use bakers_map::baker::transform;
use bakers_map::baker::Variant;
use bakers_map::frame::Color;
use bakers_map::frame::Frame;
use bakers_map::frame::FrameError;
use bakers_map::init::create;
use bakers_map::init::InitMode;
use bakers_map::sequence::generate;

fn color(r: u8, g: u8, b: u8, a: u8) -> Color {
    Color { r, g, b, a }
}

const RED: Color = Color { r: 255, g: 0, b: 0, a: 255 };
const BLUE: Color = Color { r: 0, g: 0, b: 255, a: 255 };

/// A 4x4 frame whose pixel at column x, row y is labeled (r = x, g = y).
fn labeled_frame(dim: u8) -> Frame {
    let mut px = Vec::new();
    for y in 0..dim {
        for x in 0..dim {
            px.push(color(x, y, 100, 7));
        }
    }
    Frame::from_pixels(dim as usize, px).unwrap()
}

#[test]
fn split_dim_100_rows() {
    let f = create(100, InitMode::Split).unwrap();
    assert_eq!(f.dim(), 100);
    for x in 0..100 {
        assert_eq!(f.get(x, 0), RED);
        assert_eq!(f.get(x, 99), BLUE);
        // the row at normalized y = 0.5 belongs to the blue region
        assert_eq!(f.get(x, 50), BLUE);
        assert_eq!(f.get(x, 49), RED);
    }
}

#[test]
fn random_alpha_always_255() {
    let f = create(64, InitMode::Random).unwrap();
    for y in 0..64 {
        for x in 0..64 {
            assert_eq!(f.get(x, y).a, 255);
        }
    }
}

#[test]
fn random_channels_spread() {
    // 3 * 64 * 64 uniform bytes: low and high values both appear, overwhelmingly
    let f = create(64, InitMode::Random).unwrap();
    let mut low = false;
    let mut high = false;
    for y in 0..64 {
        for x in 0..64 {
            let c = f.get(x, y);
            for v in [c.r, c.g, c.b] {
                if v < 64 {
                    low = true;
                }
                if v > 191 {
                    high = true;
                }
            }
        }
    }
    assert!(low && high);
}

#[test]
fn transform_deterministic() {
    let f = create(16, InitMode::Random).unwrap();
    for v in [Variant::Unfolded, Variant::Folded] {
        let a = transform(&f, v);
        let b = transform(&f, v);
        assert!(a.frame_eq(&b));
    }
}

#[test]
fn generate_zero_is_empty() {
    let f = create(8, InitMode::Split).unwrap();
    let frames = generate(f, 0, Variant::Unfolded);
    assert_eq!(frames.len(), 0);
}

#[test]
fn generate_one_keeps_initial() {
    let f = create(8, InitMode::Split).unwrap();
    let frames = generate(f, 1, Variant::Folded);
    assert_eq!(frames.len(), 1);
    let same = create(8, InitMode::Split).unwrap();
    assert!(frames[0].frame_eq(&same));
}

#[test]
fn generate_chains_transforms() {
    for v in [Variant::Unfolded, Variant::Folded] {
        let f = create(8, InitMode::Split).unwrap();
        let frames = generate(f, 5, v);
        assert_eq!(frames.len(), 5);
        for i in 1..5 {
            let t = transform(&frames[i - 1], v);
            assert!(t.frame_eq(&frames[i]));
        }
    }
}

#[test]
fn dim_one_both_variants() {
    for mode in [InitMode::Split, InitMode::Random] {
        let f = create(1, mode).unwrap();
        assert_eq!(f.dim(), 1);
        let c = f.get(0, 0);
        for v in [Variant::Unfolded, Variant::Folded] {
            let t = transform(&f, v);
            assert_eq!(t.dim(), 1);
            let d = t.get(0, 0);
            assert_eq!((d.r, d.g, d.b, d.a), (c.r, c.g, c.b, 255));
        }
    }
}

#[test]
fn unfolded_example_dim4() {
    let f = labeled_frame(4);
    let t = transform(&f, Variant::Unfolded);
    // destination (x = 3, y = 0): scaled = 4, source row (0 + 4) / 2 = 2,
    // source column 2 * 3 - 4 = 2
    let d = t.get(3, 0);
    let s = f.get(2, 2);
    assert_eq!((d.r, d.g, d.b, d.a), (s.r, s.g, s.b, 255));
    assert_eq!((d.r, d.g), (2, 2));
}

#[test]
fn unfolded_formula_everywhere() {
    let f = labeled_frame(4);
    let t = transform(&f, Variant::Unfolded);
    for y in 0..4usize {
        for x in 0..4usize {
            let scaled = (2 * x / 4) * 4;
            let sr = (y + scaled) / 2;
            let sc = 2 * x - scaled;
            let d = t.get(x, y);
            let s = f.get(sc, sr);
            assert_eq!((d.r, d.g, d.b, d.a), (s.r, s.g, s.b, 255));
        }
    }
}

#[test]
fn folded_formula_everywhere() {
    let f = labeled_frame(4);
    let t = transform(&f, Variant::Folded);
    // destination (x = 3, y = 0): right half, source row 3 - 0 = 3,
    // source column 2 * 3 - 2 * 3 = 0
    let d = t.get(3, 0);
    assert_eq!((d.r, d.g, d.b, d.a), (0, 3, 100, 255));
    for y in 0..4usize {
        for x in 0..4usize {
            let (sr, sc) = if 2 * x < 4 { (y / 2, 2 * x) } else { (3 - y / 2, 6 - 2 * x) };
            let d = t.get(x, y);
            let s = f.get(sc, sr);
            assert_eq!((d.r, d.g, d.b, d.a), (s.r, s.g, s.b, 255));
        }
    }
}

#[test]
fn folded_creates_no_new_color() {
    // every output pixel's RGB occurs among the input pixels
    let dim = 6u8;
    let f = labeled_frame(dim);
    let t = transform(&f, Variant::Folded);
    for y in 0..dim as usize {
        for x in 0..dim as usize {
            let d = t.get(x, y);
            let mut found = false;
            for sy in 0..dim as usize {
                for sx in 0..dim as usize {
                    let s = f.get(sx, sy);
                    if (s.r, s.g, s.b) == (d.r, d.g, d.b) {
                        found = true;
                    }
                }
            }
            assert!(found);
        }
    }
}

#[test]
fn create_rejects_zero_dim() {
    assert!(matches!(create(0, InitMode::Split), Err(FrameError::ZeroDimension)));
    assert!(matches!(create(0, InitMode::Random), Err(FrameError::ZeroDimension)));
}

#[test]
fn create_rejects_oversized_dim() {
    assert!(matches!(create(usize::MAX, InitMode::Split), Err(FrameError::TooLarge)));
}

#[test]
fn from_pixels_errors() {
    assert!(matches!(Frame::from_pixels(0, Vec::new()), Err(FrameError::ZeroDimension)));
    let px = vec![color(0, 0, 0, 0); 3];
    assert!(matches!(Frame::from_pixels(2, px), Err(FrameError::PixelCountMismatch)));
}

#[test]
fn frame_eq_distinguishes() {
    let a = labeled_frame(4);
    let b = labeled_frame(4);
    assert!(a.frame_eq(&b));
    let mut px = Vec::new();
    for y in 0..4u8 {
        for x in 0..4u8 {
            let g = if (x, y) == (2, 1) { 200 } else { y };
            px.push(color(x, g, 100, 7));
        }
    }
    let c = Frame::from_pixels(4, px).unwrap();
    assert!(!a.frame_eq(&c));
    let small = labeled_frame(3);
    assert!(!a.frame_eq(&small));
}
