use vstd::prelude::*;
use crate::pixel::{RgbaImage, colordiff, color_diff};
use crate::settings::{Settings, min_int};

verus! {

/// Smallest color difference from the previous frame that keeps any
/// importance, for a palette quality of `color_quality`.
pub open spec fn min_diff_for(color_quality: int) -> int {
    80 + (100 - color_quality) * (100 - color_quality)
}

/// Importance of a pixel after weighing how much it differs (`d`) from the
/// same pixel of the previous frame: pixels that barely change get none,
/// clearly changed ones keep what they had.
pub open spec fn attenuated(importance: int, d: int, min_diff: int) -> int {
    if d < min_diff {
        0
    } else {
        min_int(256, (d / 32) * (d / 32)) * importance / 256
    }
}

/// Lowers the importance of pixels that look like the previous frame.
pub fn attenuate_importance(
    importance: &mut Vec<u8>,
    prev: &RgbaImage,
    cur: &RgbaImage,
    settings: &Settings,
)
    requires
        old(importance)@.len() == cur.pixels@.len(),
        prev.pixels@.len() == cur.pixels@.len(),
    ensures
        final(importance)@.len() == old(importance)@.len(),
        forall|i: int|
            0 <= i < cur.pixels@.len() ==> #[trigger] final(importance)@[i] == attenuated(
                old(importance)@[i] as int,
                color_diff(prev.pixels@[i], cur.pixels@[i]),
                min_diff_for(settings.color_quality_spec()),
            ),
{
    let q = 100 - settings.color_quality() as u32;
    assert(q * q <= 10000) by (nonlinear_arith)
        requires
            q <= 100,
    ;
    let min_diff = 80 + q * q;
    let n = cur.pixels.len();
    let ghost imp0 = importance@;
    let mut i: usize = 0;
    while i < n
        invariant
            n == cur.pixels@.len() == prev.pixels@.len() == importance@.len() == imp0.len(),
            i <= n,
            min_diff == min_diff_for(settings.color_quality_spec()),
            q <= 100,
            forall|k: int|
                0 <= k < i ==> #[trigger] importance@[k] == attenuated(
                    imp0[k] as int,
                    color_diff(prev.pixels@[k], cur.pixels@[k]),
                    min_diff as int,
                ),
            forall|k: int| i <= k < n ==> #[trigger] importance@[k] == imp0[k],
        decreases n - i,
    {
        let d = colordiff(prev.pixels[i], cur.pixels[i]);
        let imp = importance[i];
        let v: u8 = if d < min_diff {
            0
        } else {
            let t = d / 32;
            assert(t * t <= 12192 * 12192) by (nonlinear_arith)
                requires
                    t <= 12192,
            ;
            let tt = t * t;
            let capped: u32 = if tt < 256 {
                tt
            } else {
                256
            };
            assert(capped * imp <= 256 * 255) by (nonlinear_arith)
                requires
                    capped <= 256,
                    imp <= 255,
            ;
            assert(capped * imp / 256 <= 255) by (nonlinear_arith)
                requires
                    capped * imp <= 256 * 255,
            ;
            (capped * imp as u32 / 256) as u8
        };
        importance.set(i, v);
        i += 1;
    }
}

/// Quality ceiling for palette selection of frame `ordinal`: the first
/// frame is always selected at full quality.
pub fn quality_ceiling(settings: &Settings, ordinal: usize) -> (r: u8)
    ensures
        r == if ordinal > 1 {
            settings.color_quality_spec()
        } else {
            100
        },
{
    if ordinal > 1 {
        settings.color_quality()
    } else {
        100
    }
}

/// Whether palette selection reserves a fully transparent entry: every
/// frame after the first does, so that it can show the frames below it.
pub fn reserves_transparent_color(ordinal: usize) -> (r: bool)
    ensures
        r == (ordinal > 1),
{
    ordinal > 1
}

} // verus!
