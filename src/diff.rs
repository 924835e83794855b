use vstd::prelude::*;
use crate::error::EncodeError;
use crate::pixel::{Rgba, RgbaImage, colordiff, color_diff};

verus! {

/// What a viewer does with a frame's area before drawing the next frame.
#[derive(Clone, Copy, Debug, PartialEq, Eq, Structural)]
pub enum Disposal {
    /// Leave the frame's pixels on screen.
    Keep,
    /// Restore the frame's rectangle to the transparent background.
    Background,
}

/// Divisor that maps a color difference onto the importance scale.
pub const DIFF_PER_IMPORTANCE: u32 = 2295;

/// Importance of a pixel given its value in the next frame: the more the
/// next frame changes it, the less it matters.
pub open spec fn importance_of(next: Rgba, cur: Rgba) -> int {
    255 - crate::settings::min_int(255, color_diff(next, cur) / DIFF_PER_IMPORTANCE as int)
}

/// Some pixel becomes more transparent in the next frame.
pub open spec fn alpha_drops(next: Seq<Rgba>, cur: Seq<Rgba>) -> bool {
    exists|i: int| 0 <= i < cur.len() && #[trigger] next[i].a < cur[i].a
}

/// Some pixel is mostly transparent.
pub open spec fn has_transparency_spec(px: Seq<Rgba>) -> bool {
    exists|i: int| 0 <= i < px.len() && (#[trigger] px[i]).a < 128
}

pub fn has_transparency(img: &RgbaImage) -> (r: bool)
    ensures
        r == has_transparency_spec(img.pixels@),
{
    let n = img.pixels.len();
    let mut i: usize = 0;
    while i < n
        invariant
            n == img.pixels@.len(),
            i <= n,
            forall|k: int| 0 <= k < i ==> (#[trigger] img.pixels@[k]).a >= 128,
        decreases n - i,
    {
        if img.pixels[i].a < 128 {
            return true;
        }
        i += 1;
    }
    false
}

/// Whether the two images hold the same pixels.
pub fn same_pixels(a: &RgbaImage, b: &RgbaImage) -> (r: bool)
    ensures
        r == (a.pixels@ == b.pixels@),
{
    let n = a.pixels.len();
    if n != b.pixels.len() {
        return false;
    }
    let mut i: usize = 0;
    while i < n
        invariant
            n == a.pixels@.len() == b.pixels@.len(),
            i <= n,
            forall|k: int| 0 <= k < i ==> a.pixels@[k] == b.pixels@[k],
        decreases n - i,
    {
        if a.pixels[i] != b.pixels[i] {
            return false;
        }
        i += 1;
    }
    assert(a.pixels@ =~= b.pixels@);
    true
}

/// Importance of each pixel of `cur` given the frame after it, and the
/// disposal that `cur` needs: `Background` when some pixel becomes more
/// transparent, else `Keep`.
pub fn importance_from_next(cur: &RgbaImage, next: &RgbaImage) -> (r: (Vec<u8>, Disposal))
    requires
        cur.pixels@.len() == next.pixels@.len(),
    ensures
        r.0@.len() == cur.pixels@.len(),
        forall|i: int|
            0 <= i < cur.pixels@.len() ==> r.0@[i] == importance_of(
                #[trigger] next.pixels@[i],
                cur.pixels@[i],
            ),
        r.1 == (if alpha_drops(next.pixels@, cur.pixels@) {
            Disposal::Background
        } else {
            Disposal::Keep
        }),
{
    let n = cur.pixels.len();
    let mut map: Vec<u8> = Vec::with_capacity(n);
    let mut dispose = Disposal::Keep;
    let mut i: usize = 0;
    while i < n
        invariant
            n == cur.pixels@.len() == next.pixels@.len(),
            i <= n,
            map@.len() == i,
            forall|k: int|
                0 <= k < i ==> map@[k] == importance_of(#[trigger] next.pixels@[k], cur.pixels@[k]),
            dispose == (if exists|k: int| 0 <= k < i && #[trigger] next.pixels@[k].a < cur.pixels@[k].a {
                Disposal::Background
            } else {
                Disposal::Keep
            }),
        decreases n - i,
    {
        let np = next.pixels[i];
        let cp = cur.pixels[i];
        if np.a < cp.a {
            dispose = Disposal::Background;
        }
        let d = colordiff(np, cp) / DIFF_PER_IMPORTANCE;
        let v: u8 = if d < 255 {
            255 - d as u8
        } else {
            0
        };
        map.push(v);
        i += 1;
    }
    (map, dispose)
}

/// What the diff stage does with one frame.
#[derive(Debug)]
pub enum DiffStep {
    /// The frame equals the next one and is dropped.
    Skip,
    /// The frame goes on to palette selection.
    Emit { ordinal: usize, dispose: Disposal, importance: Vec<u8> },
}

/// State of the diff stage between frames.
#[derive(Clone, Copy, Debug)]
pub struct DiffStage {
    /// Ordinal of the last frame emitted; 0 before the first.
    pub ordinal: usize,
    /// Whether the first frame has a mostly transparent pixel.
    pub first_frame_has_transparency: bool,
}

impl DiffStage {
    /// State before any frame, given the first frame.
    pub fn start(first: &RgbaImage) -> (s: DiffStage)
        ensures
            s.ordinal == 0,
            s.first_frame_has_transparency == has_transparency_spec(first.pixels@),
    {
        DiffStage { ordinal: 0, first_frame_has_transparency: has_transparency(first) }
    }

    /// Decides on frame `cur`, looking ahead at `next` when there is one.
    /// A frame equal to the next is skipped; the others get the next
    /// ordinal, a disposal and an importance map.
    pub fn step(&mut self, cur: &RgbaImage, next: Option<&RgbaImage>) -> (r: Result<DiffStep, EncodeError>)
        requires
            cur.wf(),
            old(self).ordinal < usize::MAX,
            next matches Some(n) ==> n.wf(),
        ensures
            final(self).first_frame_has_transparency == old(self).first_frame_has_transparency,
            match next {
                Some(n) => if n.width != cur.width || n.height != cur.height {
                    &&& r == Err::<DiffStep, EncodeError>(
                        EncodeError::WrongSize {
                            frame: (old(self).ordinal + 1) as usize,
                            width: n.width,
                            height: n.height,
                            expected_width: cur.width,
                            expected_height: cur.height,
                        },
                    )
                    &&& *final(self) == *old(self)
                } else if n.pixels@ == cur.pixels@ {
                    &&& r matches Ok(DiffStep::Skip)
                    &&& *final(self) == *old(self)
                } else {
                    &&& final(self).ordinal == old(self).ordinal + 1
                    &&& r matches Ok(DiffStep::Emit { ordinal, dispose, importance })
                    &&& ordinal == final(self).ordinal
                    &&& importance@.len() == cur.pixels@.len()
                    &&& forall|i: int|
                        0 <= i < cur.pixels@.len() ==> importance@[i] == importance_of(
                            #[trigger] n.pixels@[i],
                            cur.pixels@[i],
                        )
                    &&& dispose == if alpha_drops(n.pixels@, cur.pixels@) {
                        Disposal::Background
                    } else {
                        Disposal::Keep
                    }
                },
                None => {
                    &&& final(self).ordinal == old(self).ordinal + 1
                    &&& r matches Ok(DiffStep::Emit { ordinal, dispose, importance })
                    &&& ordinal == final(self).ordinal
                    &&& importance@ == Seq::new(cur.pixels@.len(), |i: int| 255u8)
                    &&& dispose == if old(self).first_frame_has_transparency {
                        Disposal::Background
                    } else {
                        Disposal::Keep
                    }
                },
            },
    {
        match next {
            Some(n) => {
                if n.width != cur.width || n.height != cur.height {
                    return Err(
                        EncodeError::WrongSize {
                            frame: self.ordinal + 1,
                            width: n.width,
                            height: n.height,
                            expected_width: cur.width,
                            expected_height: cur.height,
                        },
                    );
                }
                if same_pixels(n, cur) {
                    return Ok(DiffStep::Skip);
                }
                self.ordinal = self.ordinal + 1;
                let (importance, dispose) = importance_from_next(cur, n);
                Ok(DiffStep::Emit { ordinal: self.ordinal, dispose, importance })
            },
            None => {
                self.ordinal = self.ordinal + 1;
                let dispose = if self.first_frame_has_transparency {
                    Disposal::Background
                } else {
                    Disposal::Keep
                };
                let importance = vec![255u8; cur.pixels.len()];
                assert(importance@ =~= Seq::new(cur.pixels@.len(), |i: int| 255u8));
                Ok(DiffStep::Emit { ordinal: self.ordinal, dispose, importance })
            },
        }
    }
}

} // verus!
