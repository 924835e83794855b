use vstd::prelude::*;
use crate::error;
use crate::pixel::{Rgba, RgbaImage};
use crate::settings::{dimensions_for_image, dimensions_spec};

verus! {

/// Ordered-dither thresholds of an 8×8 tile, row by row.
pub open spec fn dither_table() -> Seq<u8> {
    seq![
        8u8, 104, 32, 128, 14, 110, 38, 134,
        72, 40, 96, 64, 78, 46, 102, 70,
        24, 120, 16, 112, 30, 126, 22, 118,
        88, 56, 80, 48, 94, 62, 86, 54,
        12, 108, 36, 132, 10, 106, 34, 130,
        76, 44, 100, 68, 74, 42, 98, 66,
        28, 124, 20, 116, 26, 122, 18, 114,
        92, 60, 84, 52, 90, 58, 82, 50,
    ]
}

/// Threshold for the pixel in column `x` of row `y`.
pub open spec fn dither_at(x: int, y: int) -> u8 {
    dither_table()[(y % 8) * 8 + x % 8]
}

/// A pixel with partial alpha becomes fully transparent or fully opaque.
pub open spec fn binarize_pixel(p: Rgba, x: int, y: int) -> Rgba {
    if p.a < 255 {
        Rgba { a: if p.a < dither_at(x, y) { 0 } else { 255 }, ..p }
    } else {
        p
    }
}

/// Every pixel of a row-major image `width` wide, binarized.
pub open spec fn binarized(px: Seq<Rgba>, width: int) -> Seq<Rgba> {
    Seq::new(px.len(), |i: int| binarize_pixel(px[i], i % width, i / width))
}

proof fn lemma_dither_positive(x: int, y: int)
    ensures
        dither_at(x, y) >= 8,
{
    let k = (y % 8) * 8 + x % 8;
    assert(0 <= x % 8 < 8);
    assert(0 <= y % 8 < 8);
    assert(0 <= k < 64);
    let t = dither_table();
    assert(t.len() == 64);
    assert(t[k] >= 8);
}

/// Binarizing alpha a second time changes nothing.
pub proof fn lemma_binarize_idempotent(px: Seq<Rgba>, width: int)
    ensures
        binarized(binarized(px, width), width) == binarized(px, width),
{
    let once = binarized(px, width);
    assert forall|i: int| 0 <= i < px.len() implies #[trigger] binarize_pixel(once[i], i % width, i / width) == once[i] by {
        lemma_dither_positive(i % width, i / width);
    }
    assert(binarized(once, width) =~= once);
}

/// Makes alpha binary: pixels that are not fully opaque become fully
/// transparent or fully opaque according to an 8×8 ordered dither.
pub fn binarize_alpha(img: &mut RgbaImage)
    requires
        old(img).wf(),
    ensures
        final(img).width == old(img).width,
        final(img).height == old(img).height,
        final(img).pixels@ == binarized(old(img).pixels@, old(img).width as int),
{
    let table: Vec<u8> = vec![
        8u8, 104, 32, 128, 14, 110, 38, 134,
        72, 40, 96, 64, 78, 46, 102, 70,
        24, 120, 16, 112, 30, 126, 22, 118,
        88, 56, 80, 48, 94, 62, 86, 54,
        12, 108, 36, 132, 10, 106, 34, 130,
        76, 44, 100, 68, 74, 42, 98, 66,
        28, 124, 20, 116, 26, 122, 18, 114,
        92, 60, 84, 52, 90, 58, 82, 50,
    ];
    assert(table@ =~= dither_table());
    let w = img.width;
    let n = img.pixels.len();
    let ghost px0 = img.pixels@;
    if w == 0 {
        assert(n == 0) by (nonlinear_arith)
            requires
                n == w * img.height,
                w == 0,
        ;
        assert(img.pixels@ =~= binarized(px0, w as int));
        return;
    }
    let mut i: usize = 0;
    while i < n
        invariant
            table@ == dither_table(),
            w == img.width > 0,
            img.height == old(img).height,
            n == img.pixels@.len() == px0.len(),
            i <= n,
            forall|k: int| 0 <= k < i ==> #[trigger] img.pixels@[k] == binarize_pixel(px0[k], k % w as int, k / w as int),
            forall|k: int| i <= k < n ==> #[trigger] img.pixels@[k] == px0[k],
        decreases n - i,
    {
        let p = img.pixels[i];
        if p.a < 255 {
            let x = i % w;
            let y = i / w;
            let k = (y % 8) * 8 + x % 8;
            let a: u8 = if p.a < table[k] {
                0
            } else {
                255
            };
            img.pixels.set(i, Rgba { a, ..p });
        }
        i += 1;
    }
    assert(img.pixels@ =~= binarized(px0, w as int));
}

/// The image produced by resampling `src` (`w`×`h`) to `nw`×`nh` with a
/// Lanczos3 filter.
pub uninterp spec fn lanczos3_resized(src: Seq<Rgba>, w: int, h: int, nw: int, nh: int) -> Seq<Rgba>;

#[verifier::external_type_specification]
#[verifier::external_body]
pub struct ExResizeError(resize::Error);

/// Relies on resize::resize with the RGBA8 pixel format and the Lanczos3
/// filter: it writes the resampled image into a buffer of the target size,
/// or fails.
#[verifier::external_body]
fn resize_lanczos3(
    src: &Vec<Rgba>,
    w: usize,
    h: usize,
    nw: usize,
    nh: usize,
    dst: &mut Vec<Rgba>,
) -> (r: Result<(), resize::Error>)
    ensures
        final(dst)@.len() == old(dst)@.len(),
        r is Ok ==> final(dst)@ == lanczos3_resized(src@, w as int, h as int, nw as int, nh as int),
{
    let src: Vec<rgb::RGBA8> = src.iter().map(|p| rgb::RGBA8::new(p.r, p.g, p.b, p.a)).collect();
    let mut out: Vec<rgb::RGBA8> = dst.iter().map(|p| rgb::RGBA8::new(p.r, p.g, p.b, p.a)).collect();
    let r = resize::resize(w, h, nw, nh, resize::Pixel::RGBA8, resize::Type::Lanczos3, &src, &mut out);
    *dst = out.iter().map(|p| Rgba { r: p.r, g: p.g, b: p.b, a: p.a }).collect();
    r
}

/// Resizes a frame to the size that the limits give, when that differs from
/// its own, then makes its alpha binary.
pub fn resized_binary_alpha(image: RgbaImage, max_w: Option<u32>, max_h: Option<u32>) -> (r: Result<RgbaImage, error::EncodeError>)
    requires
        image.wf(),
    ensures
        ({
            let (nw, nh) = dimensions_spec(image.width as int, image.height as int, max_w, max_h);
            let same = nw == image.width && nh == image.height;
            match r {
                Ok(out) => {
                    &&& out.width == nw
                    &&& out.height == nh
                    &&& out.wf()
                    &&& out.pixels@ == binarized(
                        if same {
                            image.pixels@
                        } else {
                            lanczos3_resized(image.pixels@, image.width as int, image.height as int, nw, nh)
                        },
                        nw,
                    )
                },
                Err(e) => !same && e == error::EncodeError::ResizeFailed,
            }
        }),
{
    let (nw, nh) = dimensions_for_image(image.width, image.height, max_w, max_h);
    let mut image = image;
    if nw != image.width || nh != image.height {
        proof {
            crate::settings::lemma_dimensions_never_grow(image.width as nat, image.height as nat, max_w, max_h);
            assert(nw * nh <= image.width * image.height) by (nonlinear_arith)
                requires
                    nw <= image.width,
                    nh <= image.height,
            ;
        }
        let src_len = image.pixels.len();
        assert(src_len == image.width * image.height);
        let len = nw * nh;
        let mut dst: Vec<Rgba> = vec![Rgba { r: 0, g: 0, b: 0, a: 0 }; len];
        match resize_lanczos3(&image.pixels, image.width, image.height, nw, nh, &mut dst) {
            Ok(()) => {},
            Err(_) => {
                return Err(error::EncodeError::ResizeFailed);
            },
        }
        image = RgbaImage { width: nw, height: nh, pixels: dst };
    }
    binarize_alpha(&mut image);
    Ok(image)
}

} // verus!
