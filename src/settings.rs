use vstd::prelude::*;

verus! {

/// How many times the animation plays.
#[derive(Clone, Copy, Debug, PartialEq, Eq, Structural)]
pub enum Repeat {
    Finite(u16),
    Infinite,
}

/// Encoding settings, fixed for one output.
#[derive(Clone, Copy, Debug)]
pub struct Settings {
    /// Largest width of the output, if any.
    pub width: Option<u32>,
    /// Largest height of the output, if any. Aspect ratio is not kept when
    /// both are given.
    pub height: Option<u32>,
    /// 1 to 100.
    pub quality: u8,
    /// Lower quality, faster encoding.
    pub fast: bool,
    /// Looping of the animation.
    pub repeat: Repeat,
}

/// Area above which images are shrunk when no size is given.
pub const AUTO_AREA: u128 = 480000;

pub open spec fn min_int(a: int, b: int) -> int {
    if a < b {
        a
    } else {
        b
    }
}

/// `n / d` rounded to the nearest integer, halves up.
pub open spec fn div_round(n: int, d: int) -> int {
    (n + d / 2) / d
}

/// Output size of an image of `w`×`h` under the optional limits.
pub open spec fn dimensions_spec(w: int, h: int, max_w: Option<u32>, max_h: Option<u32>) -> (int, int) {
    match (max_w, max_h) {
        (None, None) => if w * h > AUTO_AREA {
            let factor = (w * h + AUTO_AREA + AUTO_AREA - 1) / AUTO_AREA as int;
            (w / factor, h / factor)
        } else {
            (w, h)
        },
        (Some(mw), Some(mh)) => (min_int(mw as int, w), min_int(mh as int, h)),
        (Some(mw), None) => {
            let nw = min_int(mw as int, w);
            if w == 0 {
                (nw, h)
            } else {
                (nw, div_round(h * nw, w))
            }
        },
        (None, Some(mh)) => {
            let nh = min_int(mh as int, h);
            if h == 0 {
                (w, nh)
            } else {
                (div_round(w * nh, h), nh)
            }
        },
    }
}

proof fn lemma_scaled_fits(a: int, b: int, nb: int)
    requires
        0 <= nb <= b,
        0 < b,
        0 <= a,
    ensures
        0 <= div_round(a * nb, b) <= a,
{
    assert(0 <= a * nb <= a * b) by (nonlinear_arith)
        requires
            0 <= nb <= b,
            0 <= a,
    ;
    assert(a * nb + b / 2 < b * (a + 1)) by (nonlinear_arith)
        requires
            a * nb <= a * b,
            0 < b,
    ;
    assert((a * nb + b / 2) / b <= a) by (nonlinear_arith)
        requires
            a * nb + b / 2 < b * (a + 1),
            0 < b,
            0 <= a * nb,
    ;
    assert(0 <= (a * nb + b / 2) / b) by (nonlinear_arith)
        requires
            0 < b,
            0 <= a * nb,
    ;
}

/// Resizing never makes an image larger than it was.
pub proof fn lemma_dimensions_never_grow(w: nat, h: nat, max_w: Option<u32>, max_h: Option<u32>)
    ensures
        0 <= dimensions_spec(w as int, h as int, max_w, max_h).0 <= w,
        0 <= dimensions_spec(w as int, h as int, max_w, max_h).1 <= h,
{
    match (max_w, max_h) {
        (None, None) => {
            if w * h > AUTO_AREA {
                let factor = (w * h + AUTO_AREA + AUTO_AREA - 1) / AUTO_AREA as int;
                assert(factor >= 1);
                assert(0 <= (w as int) / factor <= w) by (nonlinear_arith)
                    requires
                        factor >= 1,
                ;
                assert(0 <= (h as int) / factor <= h) by (nonlinear_arith)
                    requires
                        factor >= 1,
                ;
            }
        },
        (Some(mw), None) => {
            if w > 0 {
                lemma_scaled_fits(h as int, w as int, min_int(mw as int, w as int));
            }
        },
        (None, Some(mh)) => {
            if h > 0 {
                lemma_scaled_fits(w as int, h as int, min_int(mh as int, h as int));
            }
        },
        _ => {},
    }
}

fn min_u128(a: u128, b: u128) -> (r: u128)
    ensures
        r == min_int(a as int, b as int),
{
    if a < b {
        a
    } else {
        b
    }
}

/// The size that frames of `img_w`×`img_h` are resized to, given the
/// optional largest width and height.
pub fn dimensions_for_image(img_w: usize, img_h: usize, max_w: Option<u32>, max_h: Option<u32>) -> (r: (
    usize,
    usize,
))
    ensures
        r.0 == dimensions_spec(img_w as int, img_h as int, max_w, max_h).0,
        r.1 == dimensions_spec(img_w as int, img_h as int, max_w, max_h).1,
{
    proof {
        lemma_dimensions_never_grow(img_w as nat, img_h as nat, max_w, max_h);
    }
    let w = img_w as u128;
    let h = img_h as u128;
    assert(w * h <= usize::MAX * usize::MAX) by (nonlinear_arith)
        requires
            w <= usize::MAX,
            h <= usize::MAX,
    ;
    let (nw, nh) = match (max_w, max_h) {
        (None, None) => {
            let area = w * h;
            if area > AUTO_AREA {
                let factor = (area + AUTO_AREA + AUTO_AREA - 1) / AUTO_AREA;
                (w / factor, h / factor)
            } else {
                (w, h)
            }
        },
        (Some(mw), Some(mh)) => (min_u128(mw as u128, w), min_u128(mh as u128, h)),
        (Some(mw), None) => {
            let nw = min_u128(mw as u128, w);
            if w == 0 {
                (nw, h)
            } else {
                assert(h * nw <= usize::MAX * usize::MAX) by (nonlinear_arith)
                    requires
                        nw <= w <= usize::MAX,
                        h <= usize::MAX,
                ;
                (nw, (h * nw + w / 2) / w)
            }
        },
        (None, Some(mh)) => {
            let nh = min_u128(mh as u128, h);
            if h == 0 {
                (w, nh)
            } else {
                assert(w * nh <= usize::MAX * usize::MAX) by (nonlinear_arith)
                    requires
                        nh <= h <= usize::MAX,
                        w <= usize::MAX,
                ;
                ((w * nh + h / 2) / h, nh)
            }
        },
    };
    (nw as usize, nh as usize)
}

impl Settings {
    /// Quality given to palette selection: a third above `quality`, at most 100.
    pub open spec fn color_quality_spec(&self) -> int {
        min_int(100, self.quality * 4 / 3)
    }

    pub fn color_quality(&self) -> (r: u8)
        ensures
            r == self.color_quality_spec(),
            r <= 100,
    {
        let q = self.quality as u16 * 4 / 3;
        if q < 100 {
            q as u8
        } else {
            100
        }
    }

    /// The size that frames of `width`×`height` are resized to.
    pub fn dimensions_for_image(&self, width: usize, height: usize) -> (r: (usize, usize))
        ensures
            r.0 == dimensions_spec(width as int, height as int, self.width, self.height).0,
            r.1 == dimensions_spec(width as int, height as int, self.width, self.height).1,
    {
        dimensions_for_image(width, height, self.width, self.height)
    }
}

} // verus!
