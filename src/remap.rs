use vstd::prelude::*;
use crate::pixel::{Rgba, RgbaImage, IndexedImage};
use crate::diff::Disposal;

verus! {

/// A palette entry that renders as transparent.
pub open spec fn is_clear(p: Rgba) -> bool {
    p.a <= 128
}

/// The palette entry after transparency consolidation.
pub open spec fn consolidated_entry(p: Rgba) -> Rgba {
    if is_clear(p) {
        Rgba { a: 0, ..p }
    } else {
        p
    }
}

/// `t` is the lowest index of a transparent-looking entry, or there is none.
pub open spec fn is_first_clear(pal: Seq<Rgba>, t: Option<u8>) -> bool {
    match t {
        Some(t) => t < pal.len() && is_clear(pal[t as int]) && forall|k: int|
            0 <= k < t ==> !is_clear(#[trigger] pal[k]),
        None => forall|k: int| 0 <= k < pal.len() ==> !is_clear(#[trigger] pal[k]),
    }
}

/// Where a pixel index points after consolidation: every transparent-looking
/// entry is replaced by the first one.
pub open spec fn consolidated_index(pal: Seq<Rgba>, t: Option<u8>, px: u8) -> u8 {
    match t {
        Some(t) => if px < pal.len() && is_clear(pal[px as int]) {
            t
        } else {
            px
        },
        None => px,
    }
}

/// Makes every entry with alpha at most 128 fully transparent and points all
/// pixels that use such an entry at the first of them, which is returned.
pub fn consolidate_transparency(pal: &mut Vec<Rgba>, image: &mut Vec<u8>) -> (t: Option<u8>)
    requires
        old(pal)@.len() <= 256,
    ensures
        is_first_clear(old(pal)@, t),
        final(pal)@ == old(pal)@.map_values(|p: Rgba| consolidated_entry(p)),
        final(image)@ == old(image)@.map_values(|px: u8| consolidated_index(old(pal)@, t, px)),
{
    let ghost pal0 = pal@;
    let ghost img0 = image@;
    let mut t: Option<u8> = None;
    let n = pal.len();
    let mut i: usize = 0;
    while i < n
        invariant
            n == pal0.len() <= 256,
            i <= n,
            pal@.len() == n,
            image@.len() == img0.len(),
            is_first_clear(pal0.subrange(0, i as int), t),
            forall|k: int| 0 <= k < i ==> pal@[k] == consolidated_entry(#[trigger] pal0[k]),
            forall|k: int| i <= k < n ==> pal@[k] == #[trigger] pal0[k],
            forall|j: int|
                0 <= j < img0.len() ==> #[trigger] image@[j] == (if t is Some && img0[j] < i
                    && is_clear(pal0[img0[j] as int]) {
                    t->0
                } else {
                    img0[j]
                }),
        decreases n - i,
    {
        let p = pal[i];
        if p.a <= 128 {
            pal.set(i, Rgba { a: 0, ..p });
            match t {
                None => {
                    t = Some(i as u8);
                    assert forall|k: int| 0 <= k < i implies !is_clear(#[trigger] pal0[k]) by {
                        assert(pal0.subrange(0, i as int)[k] == pal0[k]);
                    }
                },
                Some(old_index) => {
                    let new_index = i as u8;
                    let len = image.len();
                    let mut j: usize = 0;
                    while j < len
                        invariant
                            len == image@.len() == img0.len(),
                            j <= len,
                            n == pal0.len() <= 256,
                            i < n,
                            new_index == i,
                            t == Some(old_index),
                            is_clear(pal0[i as int]),
                            forall|k: int|
                                0 <= k < j ==> #[trigger] image@[k] == (if img0[k] < i + 1
                                    && is_clear(pal0[img0[k] as int]) {
                                    old_index
                                } else {
                                    img0[k]
                                }),
                            forall|k: int|
                                j <= k < len ==> #[trigger] image@[k] == (if img0[k] < i
                                    && is_clear(pal0[img0[k] as int]) {
                                    old_index
                                } else {
                                    img0[k]
                                }),
                        decreases len - j,
                    {
                        if image[j] == new_index {
                            image.set(j, old_index);
                        }
                        j += 1;
                    }
                },
            }
        }
        assert(pal0.subrange(0, i + 1 as int).drop_last() == pal0.subrange(0, i as int));
        proof {
            let s = pal0.subrange(0, i + 1 as int);
            match t {
                Some(tt) => {
                    assert forall|k: int| 0 <= k < tt implies !is_clear(#[trigger] s[k]) by {
                        assert(pal0.subrange(0, i as int)[k] == s[k]);
                    }
                },
                None => {
                    assert forall|k: int| 0 <= k < s.len() implies !is_clear(#[trigger] s[k]) by {
                        if k < i {
                            assert(pal0.subrange(0, i as int)[k] == s[k]);
                        }
                    }
                },
            }
        }
        i += 1;
    }
    assert(pal0.subrange(0, n as int) == pal0);
    assert(pal@ =~= pal0.map_values(|p: Rgba| consolidated_entry(p)));
    assert(image@ =~= img0.map_values(|px: u8| consolidated_index(pal0, t, px)));
    t
}

/// An indexed pixel shows exactly what the screen already shows there.
pub open spec fn pixel_hidden(px: u8, pal: Seq<Rgba>, t: Option<u8>, bg: Rgba) -> bool {
    t == Some(px) || (px < pal.len() && pal[px as int] == bg)
}

/// Row `y` of the indexed image adds nothing to the screen.
pub open spec fn row_hidden(
    img: Seq<u8>,
    w: int,
    pal: Seq<Rgba>,
    t: Option<u8>,
    screen: Seq<Rgba>,
    y: int,
) -> bool {
    forall|x: int| 0 <= x < w ==> pixel_hidden(#[trigger] img[y * w + x], pal, t, screen[y * w + x])
}

/// Number of consecutive hidden rows that end just above row `k`.
pub open spec fn trailing_hidden(
    img: Seq<u8>,
    w: int,
    pal: Seq<Rgba>,
    t: Option<u8>,
    screen: Seq<Rgba>,
    k: int,
) -> int
    decreases k,
{
    if k <= 0 {
        0
    } else if row_hidden(img, w, pal, t, screen, k - 1) {
        1 + trailing_hidden(img, w, pal, t, screen, k - 1)
    } else {
        0
    }
}

/// Number of consecutive hidden rows starting at row `y`, not reaching `end`.
pub open spec fn leading_hidden(
    img: Seq<u8>,
    w: int,
    pal: Seq<Rgba>,
    t: Option<u8>,
    screen: Seq<Rgba>,
    y: int,
    end: int,
) -> int
    decreases end - y,
{
    if y >= end {
        0
    } else if row_hidden(img, w, pal, t, screen, y) {
        1 + leading_hidden(img, w, pal, t, screen, y + 1, end)
    } else {
        0
    }
}

/// The rows kept by trimming, as (first row, number of rows); `None` when
/// every row is hidden.
pub open spec fn kept_rows(
    img: Seq<u8>,
    w: int,
    h: int,
    pal: Seq<Rgba>,
    t: Option<u8>,
    screen: Seq<Rgba>,
) -> Option<(int, int)> {
    let bottom = trailing_hidden(img, w, pal, t, screen, h);
    if bottom >= h {
        None
    } else {
        let top = leading_hidden(img, w, pal, t, screen, 0, h - bottom);
        Some((top, h - bottom - top))
    }
}

proof fn lemma_trailing(
    img: Seq<u8>,
    w: int,
    pal: Seq<Rgba>,
    t: Option<u8>,
    screen: Seq<Rgba>,
    k: int,
    b: int,
)
    requires
        0 <= b <= k,
        forall|r: int| k - b <= r < k ==> row_hidden(img, w, pal, t, screen, r),
        b == k || !row_hidden(img, w, pal, t, screen, k - 1 - b),
    ensures
        trailing_hidden(img, w, pal, t, screen, k) == b,
    decreases b,
{
    if b > 0 {
        lemma_trailing(img, w, pal, t, screen, k - 1, b - 1);
    }
}

proof fn lemma_leading(
    img: Seq<u8>,
    w: int,
    pal: Seq<Rgba>,
    t: Option<u8>,
    screen: Seq<Rgba>,
    y: int,
    end: int,
    c: int,
)
    requires
        0 <= c <= end - y,
        forall|r: int| y <= r < y + c ==> row_hidden(img, w, pal, t, screen, r),
        y + c == end || !row_hidden(img, w, pal, t, screen, y + c),
    ensures
        leading_hidden(img, w, pal, t, screen, y, end) == c,
    decreases c,
{
    if c > 0 {
        lemma_leading(img, w, pal, t, screen, y + 1, end, c - 1);
    }
}

proof fn lemma_trailing_rows(
    img: Seq<u8>,
    w: int,
    pal: Seq<Rgba>,
    t: Option<u8>,
    screen: Seq<Rgba>,
    k: int,
)
    ensures
        0 <= trailing_hidden(img, w, pal, t, screen, k),
        k >= 0 ==> trailing_hidden(img, w, pal, t, screen, k) <= k,
        0 <= trailing_hidden(img, w, pal, t, screen, k) < k ==> !row_hidden(
            img,
            w,
            pal,
            t,
            screen,
            k - 1 - trailing_hidden(img, w, pal, t, screen, k),
        ),
        forall|r: int|
            k - trailing_hidden(img, w, pal, t, screen, k) <= r < k ==> row_hidden(
                img,
                w,
                pal,
                t,
                screen,
                r,
            ),
    decreases k,
{
    if k > 0 {
        lemma_trailing_rows(img, w, pal, t, screen, k - 1);
    }
}

proof fn lemma_leading_rows(
    img: Seq<u8>,
    w: int,
    pal: Seq<Rgba>,
    t: Option<u8>,
    screen: Seq<Rgba>,
    y: int,
    end: int,
)
    ensures
        0 <= leading_hidden(img, w, pal, t, screen, y, end),
        y <= end ==> y + leading_hidden(img, w, pal, t, screen, y, end) <= end,
        y + leading_hidden(img, w, pal, t, screen, y, end) < end ==> !row_hidden(
            img,
            w,
            pal,
            t,
            screen,
            y + leading_hidden(img, w, pal, t, screen, y, end),
        ),
        forall|r: int|
            y <= r < y + leading_hidden(img, w, pal, t, screen, y, end) ==> row_hidden(
                img,
                w,
                pal,
                t,
                screen,
                r,
            ),
    decreases end - y,
{
    if y < end {
        lemma_leading_rows(img, w, pal, t, screen, y + 1, end);
    }
}

/// Trimming only drops rows that leave the screen unchanged, and what it
/// keeps lies inside the screen: a frame vanishes only when all its rows
/// are hidden.
pub proof fn lemma_trim_drops_hidden_rows(
    img: Seq<u8>,
    w: int,
    h: int,
    pal: Seq<Rgba>,
    t: Option<u8>,
    screen: Seq<Rgba>,
)
    requires
        h >= 0,
    ensures
        match kept_rows(img, w, h, pal, t, screen) {
            None => forall|r: int| 0 <= r < h ==> row_hidden(img, w, pal, t, screen, r),
            Some((top, count)) => {
                &&& 0 <= top
                &&& 0 < count
                &&& top + count <= h
                &&& forall|r: int|
                    0 <= r < h && !(top <= r < top + count) ==> row_hidden(img, w, pal, t, screen, r)
            },
        },
{
    lemma_trailing_rows(img, w, pal, t, screen, h);
    let bottom = trailing_hidden(img, w, pal, t, screen, h);
    if bottom < h {
        lemma_leading_rows(img, w, pal, t, screen, 0, h - bottom);
    }
}

proof fn lemma_index_in_image(x: int, y: int, w: int, h: int)
    requires
        0 <= x < w,
        0 <= y < h,
    ensures
        0 <= y * w + x < h * w,
        y * w + x < (y + 1) * w,
        y * w <= y * w + x,
{
    assert(0 <= y * w + x < h * w) by (nonlinear_arith)
        requires
            0 <= x < w,
            0 <= y < h,
    ;
    assert((y + 1) * w == y * w + w) by (nonlinear_arith);
}

fn row_is_hidden(
    image: &IndexedImage,
    pal: &Vec<Rgba>,
    t: Option<u8>,
    screen: &RgbaImage,
    y: usize,
) -> (r: bool)
    requires
        image.wf(),
        screen.wf(),
        image.width == screen.width,
        image.height == screen.height,
        y < image.height,
    ensures
        r == row_hidden(
            image.pixels@,
            image.width as int,
            pal@,
            t,
            screen.pixels@,
            y as int,
        ),
{
    let w = image.width;
    let n = image.pixels.len();
    let mut x: usize = 0;
    while x < w
        invariant
            n == image.pixels@.len(),
            image.wf(),
            screen.wf(),
            w == image.width == screen.width,
            image.height == screen.height,
            y < image.height,
            x <= w,
            forall|k: int|
                0 <= k < x ==> pixel_hidden(
                    #[trigger] image.pixels@[y * w + k],
                    pal@,
                    t,
                    screen.pixels@[y * w + k],
                ),
        decreases w - x,
    {
        proof {
            lemma_index_in_image(x as int, y as int, w as int, image.height as int);
        }
        let i = y * w + x;
        let px = image.pixels[i];
        let bg = screen.pixels[i];
        let hidden = match t {
            Some(ti) if ti == px => true,
            _ => (px as usize) < pal.len() && pal[px as usize] == bg,
        };
        if !hidden {
            return false;
        }
        x += 1;
    }
    true
}

/// Drops rows at the bottom, then at the top, that would not change what the
/// screen shows. Returns the placement and the remaining rows, or `None` when
/// no row is left.
pub fn trim_image(
    image: IndexedImage,
    pal: &Vec<Rgba>,
    t: Option<u8>,
    screen: &RgbaImage,
) -> (r: Option<(u16, u16, IndexedImage)>)
    requires
        image.wf(),
        screen.wf(),
        image.width == screen.width,
        image.height == screen.height,
        image.height <= u16::MAX,
    ensures
        match (
            r,
            kept_rows(
                image.pixels@,
                image.width as int,
                image.height as int,
                pal@,
                t,
                screen.pixels@,
            ),
        ) {
            (None, None) => true,
            (Some((left, top, sub)), Some((first, count))) => {
                &&& left == 0
                &&& top == first
                &&& sub.width == image.width
                &&& sub.height == count
                &&& sub.wf()
                &&& sub.pixels@ == image.pixels@.subrange(
                    first * image.width,
                    (first + count) * image.width,
                )
            },
            _ => false,
        },
{
    let w = image.width;
    let h = image.height;
    let mut bottom: usize = 0;
    while bottom < h && row_is_hidden(&image, pal, t, screen, h - 1 - bottom)
        invariant
            image.wf(),
            screen.wf(),
            w == image.width == screen.width,
            h == image.height == screen.height,
            bottom <= h,
            forall|r: int|
                h - bottom <= r < h ==> row_hidden(
                    image.pixels@,
                    w as int,
                    pal@,
                    t,
                    screen.pixels@,
                    r,
                ),
        decreases h - bottom,
    {
        bottom += 1;
    }
    proof {
        lemma_trailing(image.pixels@, w as int, pal@, t, screen.pixels@, h as int, bottom as int);
    }
    if bottom == h {
        return None;
    }
    let end = h - bottom;
    let mut top: usize = 0;
    while top < end && row_is_hidden(&image, pal, t, screen, top)
        invariant
            image.wf(),
            screen.wf(),
            w == image.width == screen.width,
            h == image.height == screen.height,
            end <= h,
            top <= end,
            forall|r: int|
                0 <= r < top ==> row_hidden(image.pixels@, w as int, pal@, t, screen.pixels@, r),
        decreases end - top,
    {
        top += 1;
    }
    proof {
        lemma_leading(image.pixels@, w as int, pal@, t, screen.pixels@, 0, end as int, top as int);
    }
    let count = end - top;
    proof {
        assert(top * w <= end * w <= h * w) by (nonlinear_arith)
            requires
                top <= end <= h,
        ;
        assert(count * w == end * w - top * w) by (nonlinear_arith)
            requires
                count == end - top,
        ;
    }
    let start = top * w;
    let stop = end * w;
    let mut buf: Vec<u8> = Vec::new();
    let mut i: usize = start;
    while i < stop
        invariant
            image.wf(),
            start <= i <= stop <= image.pixels@.len(),
            buf@ == image.pixels@.subrange(start as int, i as int),
        decreases stop - i,
    {
        buf.push(image.pixels[i]);
        i += 1;
    }
    proof {
        assert((top + count) * w == end * w) by (nonlinear_arith)
            requires
                count == end - top,
        ;
    }
    assert(buf@.len() == stop - start);
    assert(stop - start == w * count) by (nonlinear_arith)
        requires
            stop - start == count * w,
    ;
    let sub = IndexedImage { width: w, height: count, pixels: buf };
    assert(sub.wf());
    assert(kept_rows(image.pixels@, w as int, h as int, pal@, t, screen.pixels@) == Some(
        (top as int, count as int),
    ));
    Some((0, top as u16, sub))
}

/// A palette-indexed frame ready for the encoder.
#[derive(Debug)]
pub struct GifFrame {
    pub left: u16,
    pub top: u16,
    pub screen_width: u16,
    pub screen_height: u16,
    pub image: IndexedImage,
    pub pal: Vec<Rgba>,
    pub dispose: Disposal,
    pub transparent_index: Option<u8>,
}

/// After consolidation no palette entry is half transparent, and every pixel
/// that renders transparent uses the one transparent index.
pub proof fn lemma_palette_invariant(pal: Seq<Rgba>, img: Seq<u8>, t: Option<u8>)
    requires
        is_first_clear(pal, t),
    ensures
        forall|k: int|
            0 <= k < pal.len() ==> #[trigger] consolidated_entry(pal[k]).a == 0
                || consolidated_entry(pal[k]).a > 128,
        t is Some ==> consolidated_entry(pal[t->0 as int]).a == 0,
        forall|j: int|
            0 <= j < img.len() ==> {
                let px = #[trigger] consolidated_index(pal, t, img[j]);
                px < pal.len() && consolidated_entry(pal[px as int]).a <= 128 ==> t == Some(px)
            },
{
}

/// Pixels of the frame after transparency consolidation.
pub open spec fn consolidated_pixels(pal: Seq<Rgba>, t: Option<u8>, img: Seq<u8>) -> Seq<u8> {
    img.map_values(|px: u8| consolidated_index(pal, t, px))
}

/// Palette after transparency consolidation.
pub open spec fn consolidated_palette(pal: Seq<Rgba>) -> Seq<Rgba> {
    pal.map_values(|p: Rgba| consolidated_entry(p))
}

/// Turns a remapped frame into the frame to encode: consolidates the
/// transparent palette entries and, for a frame that is neither the first nor
/// the last, trims rows that leave the screen unchanged. `None` means that
/// nothing is left to draw.
pub fn finish_frame(
    image: IndexedImage,
    pal: Vec<Rgba>,
    screen: &RgbaImage,
    dispose: Disposal,
    first_frame: bool,
    has_next: bool,
) -> (r: Option<GifFrame>)
    requires
        image.wf(),
        screen.wf(),
        image.width == screen.width,
        image.height == screen.height,
        screen.width <= u16::MAX,
        screen.height <= u16::MAX,
        pal@.len() <= 256,
    ensures
        match r {
            None => !first_frame && has_next && exists|t: Option<u8>|
                is_first_clear(pal@, t) && kept_rows(
                    consolidated_pixels(pal@, t, image.pixels@),
                    image.width as int,
                    image.height as int,
                    consolidated_palette(pal@),
                    t,
                    screen.pixels@,
                ) is None,
            Some(f) => {
                let t = f.transparent_index;
                let img = consolidated_pixels(pal@, t, image.pixels@);
                &&& is_first_clear(pal@, t)
                &&& f.pal@ == consolidated_palette(pal@)
                &&& f.dispose == dispose
                &&& f.screen_width == screen.width
                &&& f.screen_height == screen.height
                &&& f.left == 0
                &&& f.image.wf()
                &&& f.image.width == image.width
                &&& if !first_frame && has_next {
                    &&& kept_rows(
                        img,
                        image.width as int,
                        image.height as int,
                        f.pal@,
                        t,
                        screen.pixels@,
                    ) == Some((f.top as int, f.image.height as int))
                    &&& f.image.pixels@ == img.subrange(
                        f.top * image.width,
                        (f.top + f.image.height) * image.width,
                    )
                } else {
                    &&& f.top == 0
                    &&& f.image.height == image.height
                    &&& f.image.pixels@ == img
                }
            },
        },
{
    let mut pal = pal;
    let mut image = image;
    let t = consolidate_transparency(&mut pal, &mut image.pixels);
    let (left, top, image) = if !first_frame && has_next {
        match trim_image(image, &pal, t, screen) {
            Some(trimmed) => trimmed,
            None => {
                return None;
            },
        }
    } else {
        (0, 0, image)
    };
    Some(
        GifFrame {
            left,
            top,
            screen_width: screen.width as u16,
            screen_height: screen.height as u16,
            image,
            pal,
            dispose,
            transparent_index: t,
        },
    )
}

} // verus!
