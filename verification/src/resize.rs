//! Deciding how a picture is resized, and resizing it.
use vstd::prelude::*;
use crate::params::{ResizeParameter, ResizeMode, spec_mode, parse_mode};

verus! {

/// The samples of a picture, four to a pixel (red, green, blue, alpha), top
/// row first: eight bits a sample for pictures that came with eight, sixteen
/// for pictures that came with sixteen.
pub enum PixelData {
    Rgba8(Vec<u8>),
    Rgba16(Vec<u16>),
}

/// The number of samples.
pub open spec fn sample_count(d: PixelData) -> nat {
    match d {
        PixelData::Rgba8(v) => v@.len(),
        PixelData::Rgba16(v) => v@.len(),
    }
}

/// The bytes a sample takes.
pub open spec fn sample_bytes(d: PixelData) -> nat {
    match d {
        PixelData::Rgba8(_) => 1,
        PixelData::Rgba16(_) => 2,
    }
}

/// A picture: its size and its samples.
pub struct Picture {
    pub width: u32,
    pub height: u32,
    pub pixels: PixelData,
}

impl Picture {
    /// The samples are exactly those of a `width` by `height` picture.
    pub open spec fn wf(&self) -> bool {
        sample_count(self.pixels) == self.width * self.height * 4
    }

    /// An eight-bit picture of the given size and samples, or `None` if the
    /// number of samples does not match the size.
    pub fn from_rgba8(width: u32, height: u32, samples: Vec<u8>) -> (r: Option<Picture>)
        ensures
            match r {
                Some(p) => p.wf() && p.width == width && p.height == height && p.pixels
                    == PixelData::Rgba8(samples),
                None => samples@.len() != width * height * 4,
            },
    {
        if samples_match(width, height, samples.len()) {
            Some(Picture { width, height, pixels: PixelData::Rgba8(samples) })
        } else {
            None
        }
    }

    /// A sixteen-bit picture of the given size and samples, or `None` if the
    /// number of samples does not match the size.
    pub fn from_rgba16(width: u32, height: u32, samples: Vec<u16>) -> (r: Option<Picture>)
        ensures
            match r {
                Some(p) => p.wf() && p.width == width && p.height == height && p.pixels
                    == PixelData::Rgba16(samples),
                None => samples@.len() != width * height * 4,
            },
    {
        if samples_match(width, height, samples.len()) {
            Some(Picture { width, height, pixels: PixelData::Rgba16(samples) })
        } else {
            None
        }
    }
}

/// Whether `n` samples make a `width` by `height` picture.
fn samples_match(width: u32, height: u32, n: usize) -> (r: bool)
    ensures
        r == (n == width * height * 4),
{
    let w = width as u128;
    let h = height as u128;
    assert(w * h <= 0xffff_ffffu128 * 0xffff_ffffu128) by (nonlinear_arith)
        requires
            w <= 0xffff_ffff,
            h <= 0xffff_ffff,
    ;
    n as u128 == w * h * 4
}

/// The size of what `DynamicImage::resize` makes of a `width` by `height`
/// picture given the bounds `nwidth` and `nheight`: the bound that is the
/// tighter for the picture's shape is taken, and the other side is scaled in
/// proportion, rounded down but at least 1 (the crate's `resize_dimensions`).
pub open spec fn resized_size(width: u32, height: u32, nwidth: u32, nheight: u32) -> (u32, u32) {
    let use_width = nwidth * height <= width * nheight;
    let scaled: int = if use_width {
        height * nwidth / (width as int)
    } else {
        width * nheight / (height as int)
    };
    let side: int = if scaled < 1 {
        1
    } else {
        scaled
    };
    if use_width {
        if side <= u32::MAX {
            (nwidth, side as u32)
        } else {
            ((nwidth * u32::MAX / side) as u32, u32::MAX)
        }
    } else if side <= u32::MAX {
        (side as u32, nheight)
    } else {
        (u32::MAX, (nheight * u32::MAX / side) as u32)
    }
}

/// What `DynamicImage::resize` with the Catmull-Rom filter makes of the
/// samples of an eight-bit RGBA picture, given its size and the bounds.
pub uninterp spec fn resized_samples8(samples: Seq<u8>, width: u32, height: u32, nwidth: u32, nheight: u32) -> Seq<u8>;

/// What `DynamicImage::resize` with the Catmull-Rom filter makes of the
/// samples of a sixteen-bit RGBA picture, given its size and the bounds.
pub uninterp spec fn resized_samples16(samples: Seq<u16>, width: u32, height: u32, nwidth: u32, nheight: u32) -> Seq<u16>;

/// The buffers that resizing a picture `width` pixels wide into the bounds
/// `nwidth` by `nheight` allocates (`width` by the new height, then the new
/// width by the new height, each new side being at most its bound, or 1 for a
/// bound of 0) hold at most `isize::MAX` bytes, at `bytes` a sample.
pub open spec fn resize_buffers_fit(width: u32, nwidth: u32, nheight: u32, bytes: nat) -> bool {
    let w2: int = if nwidth == 0 {
        1
    } else {
        nwidth as int
    };
    let h2: int = if nheight == 0 {
        1
    } else {
        nheight as int
    };
    &&& width * h2 * 4 * bytes <= isize::MAX
    &&& w2 * h2 * 4 * bytes <= isize::MAX
}

/// `image::DynamicImage::resize` with `FilterType::CatmullRom`, on an
/// eight-bit RGBA picture. The new size is `resized_size` (the crate's
/// `resize_dimensions`); the new samples are named by `resized_samples8`, and
/// how they are resampled is not stated. The crate panics where a buffer
/// would exceed `isize::MAX` bytes, which `requires` leaves out; running out of
/// memory is not excluded.
#[verifier::external_body]
fn resize_rgba8(width: u32, height: u32, samples: &Vec<u8>, nwidth: u32, nheight: u32) -> (r: (u32, u32, Vec<u8>))
    requires
        samples@.len() == width * height * 4,
        width > 0,
        height > 0,
        resize_buffers_fit(width, nwidth, nheight, 1),
    ensures
        (r.0, r.1) == resized_size(width, height, nwidth, nheight),
        r.2@ == resized_samples8(samples@, width, height, nwidth, nheight),
        r.2@.len() == r.0 * r.1 * 4,
{
    let buf = image::RgbaImage::from_raw(width, height, samples.clone()).unwrap();
    let out = image::DynamicImage::ImageRgba8(buf).resize(
        nwidth,
        nheight,
        image::imageops::FilterType::CatmullRom,
    ).to_rgba8();
    (out.width(), out.height(), out.into_raw())
}

/// `image::DynamicImage::resize` with `FilterType::CatmullRom`, on a
/// sixteen-bit RGBA picture. The new size is `resized_size` (the crate's
/// `resize_dimensions`); the new samples are named by `resized_samples16`, and
/// how they are resampled is not stated. The crate panics where a buffer
/// would exceed `isize::MAX` bytes, which `requires` leaves out; running out of
/// memory is not excluded.
#[verifier::external_body]
fn resize_rgba16(width: u32, height: u32, samples: &Vec<u16>, nwidth: u32, nheight: u32) -> (r: (u32, u32, Vec<u16>))
    requires
        samples@.len() == width * height * 4,
        width > 0,
        height > 0,
        resize_buffers_fit(width, nwidth, nheight, 2),
    ensures
        (r.0, r.1) == resized_size(width, height, nwidth, nheight),
        r.2@ == resized_samples16(samples@, width, height, nwidth, nheight),
        r.2@.len() == r.0 * r.1 * 4,
{
    let buf = image::ImageBuffer::<image::Rgba<u16>, Vec<u16>>::from_raw(width, height, samples.clone()).unwrap();
    let out = image::DynamicImage::ImageRgba16(buf).resize(
        nwidth,
        nheight,
        image::imageops::FilterType::CatmullRom,
    ).to_rgba16();
    (out.width(), out.height(), out.into_raw())
}

/// For bounds of at least 1, the new size fits within them, reaches one of
/// them, and has no side of 0.
pub proof fn law_resized_size_fits(width: u32, height: u32, nwidth: u32, nheight: u32)
    requires
        width >= 1,
        height >= 1,
        nwidth >= 1,
        nheight >= 1,
    ensures
        ({
            let (w2, h2) = resized_size(width, height, nwidth, nheight);
            &&& 1 <= w2 <= nwidth
            &&& 1 <= h2 <= nheight
            &&& (w2 == nwidth || h2 == nheight)
        }),
{
    let w = width as int;
    let h = height as int;
    let nw = nwidth as int;
    let nh = nheight as int;
    if nw * h <= w * nh {
        assert(h * nw / w <= nh) by (nonlinear_arith)
            requires
                w >= 1,
                nw * h <= w * nh,
        ;
    } else {
        assert(w * nh / h < nw) by (nonlinear_arith)
            requires
                h >= 1,
                nw * h > w * nh,
        ;
    }
}

/// For bounds of at least 1, the new size keeps the picture's shape: the
/// side that reaches its bound takes it exactly, and the other side is the
/// picture's side scaled in the same proportion, rounded down, but at least 1.
pub proof fn law_resized_size_keeps_shape(width: u32, height: u32, nwidth: u32, nheight: u32)
    requires
        width >= 1,
        height >= 1,
        nwidth >= 1,
        nheight >= 1,
    ensures
        ({
            let (w2, h2) = resized_size(width, height, nwidth, nheight);
            &&& nwidth * height <= width * nheight ==> w2 == nwidth && (h2 == 1 || h2 * width
                <= height * nwidth) && height * nwidth < (h2 + 1) * width
            &&& nwidth * height > width * nheight ==> h2 == nheight && (w2 == 1 || w2 * height
                <= width * nheight) && width * nheight < (w2 + 1) * height
        }),
{
    law_resized_size_fits(width, height, nwidth, nheight);
    let w = width as int;
    let h = height as int;
    let nw = nwidth as int;
    let nh = nheight as int;
    if nw * h <= w * nh {
        let q = h * nw / w;
        assert(q * w <= h * nw < (q + 1) * w) by (nonlinear_arith)
            requires
                w >= 1,
                q == h * nw / w,
                h * nw >= 0,
        ;
        assert(q <= nh) by (nonlinear_arith)
            requires
                w >= 1,
                q == h * nw / w,
                nw * h <= w * nh,
        ;
        let h2 = resized_size(width, height, nwidth, nheight).1 as int;
        assert(h2 == if q < 1 { 1 } else { q });
        assert(h * nw < (h2 + 1) * w) by (nonlinear_arith)
            requires
                h2 >= q,
                h * nw < (q + 1) * w,
                w >= 1,
        ;
    } else {
        let q = w * nh / h;
        assert(q * h <= w * nh < (q + 1) * h) by (nonlinear_arith)
            requires
                h >= 1,
                q == w * nh / h,
                w * nh >= 0,
        ;
        assert(q < nw) by (nonlinear_arith)
            requires
                h >= 1,
                q == w * nh / h,
                nw * h > w * nh,
        ;
        let w2 = resized_size(width, height, nwidth, nheight).0 as int;
        assert(w2 == if q < 1 { 1 } else { q });
        assert(w * nh < (w2 + 1) * h) by (nonlinear_arith)
            requires
                w2 >= q,
                w * nh < (q + 1) * h,
                h >= 1,
        ;
    }
}

/// Fitting a picture into a box of its own size keeps its size.
pub proof fn law_resized_size_own_box(width: u32, height: u32)
    requires
        width >= 1,
        height >= 1,
    ensures
        resized_size(width, height, width, height) == (width, height),
{
    let w = width as int;
    let h = height as int;
    assert(h * w / w == h) by (nonlinear_arith)
        requires
            w >= 1,
    ;
}

/// The bound that stands for "no limit" on the side that a mode leaves free.
pub const UNBOUNDED_SIDE: u32 = 1000000;

/// The box a picture of `width` by `height` is fitted into, or `None` when it
/// is kept as it is:
/// - by width: into `width` by a million, unless not enlarging and the picture is no wider;
/// - by height: into a million by `height`, unless not enlarging and the picture is no higher;
/// - by largest side: into `maxsize` by `maxsize`, unless not enlarging and the
///   picture already fits within `maxsize` by `maxsize`;
/// - by percentage: into the picture's sides times the percentage, over 100, rounded down.
pub open spec fn resize_box(width: u32, height: u32, para: ResizeParameter) -> Option<(u32, u32)> {
    match spec_mode(para.mode@) {
        Some(ResizeMode::ByWidth) => if para.donotenlager && para.width >= width {
            None
        } else {
            Some((para.width, UNBOUNDED_SIDE))
        },
        Some(ResizeMode::ByHeight) => if para.donotenlager && para.height >= height {
            None
        } else {
            Some((UNBOUNDED_SIDE, para.height))
        },
        Some(ResizeMode::ByMaxSize) => if para.donotenlager && width <= para.maxsize && height
            <= para.maxsize {
            None
        } else {
            Some((para.maxsize, para.maxsize))
        },
        Some(ResizeMode::Percentage) => Some(
            (
                (width * para.percentage / 100) as u32,
                (height * para.percentage / 100) as u32,
            ),
        ),
        None => None,
    }
}

/// The mode is one of the four, and a percentage does not overflow the sides.
pub open spec fn resize_defined(width: u32, height: u32, para: ResizeParameter) -> bool {
    &&& spec_mode(para.mode@) is Some
    &&& spec_mode(para.mode@) == Some(ResizeMode::Percentage) ==> width * para.percentage
        <= u32::MAX && height * para.percentage <= u32::MAX
}

/// Where the picture is fitted into a box, it is not empty and the buffers
/// that resizing allocates fit, at `bytes` a sample (see `resize_buffers_fit`).
pub open spec fn resize_possible(width: u32, height: u32, para: ResizeParameter, bytes: nat) -> bool {
    match resize_box(width, height, para) {
        Some((bw, bh)) => width > 0 && height > 0 && resize_buffers_fit(width, bw, bh, bytes),
        None => true,
    }
}

/// The box a picture is fitted into, or `None` when it is kept (see `resize_box`).
pub fn resize_target(width: u32, height: u32, para: ResizeParameter) -> (r: Option<(u32, u32)>)
    requires
        resize_defined(width, height, para),
    ensures
        r == resize_box(width, height, para),
        para.mode@ == "Percentage"@ ==> r == Some(
            ((width * para.percentage / 100) as u32, (height * para.percentage / 100) as u32),
        ),
{
    proof {
        lemma_mode_names_distinct();
        law_resize_box_by_mode_name(width, height, para);
    }
    let mode = parse_mode(para.mode);
    match mode {
        Some(ResizeMode::ByWidth) => {
            if para.donotenlager && para.width >= width {
                None
            } else {
                Some((para.width, UNBOUNDED_SIDE))
            }
        },
        Some(ResizeMode::ByHeight) => {
            if para.donotenlager && para.height >= height {
                None
            } else {
                Some((UNBOUNDED_SIDE, para.height))
            }
        },
        Some(ResizeMode::ByMaxSize) => {
            if para.donotenlager && width <= para.maxsize && height <= para.maxsize {
                None
            } else {
                Some((para.maxsize, para.maxsize))
            }
        },
        Some(ResizeMode::Percentage) => {
            let w = width * para.percentage / 100;
            let h = height * para.percentage / 100;
            Some((w, h))
        },
        None => None,
    }
}

/// The samples of `r` are what resizing those of `img` into the bounds gives.
pub open spec fn resampled(img: Picture, r: Picture, nwidth: u32, nheight: u32) -> bool {
    match (img.pixels, r.pixels) {
        (PixelData::Rgba8(a), PixelData::Rgba8(b)) => b@ == resized_samples8(
            a@,
            img.width,
            img.height,
            nwidth,
            nheight,
        ),
        (PixelData::Rgba16(a), PixelData::Rgba16(b)) => b@ == resized_samples16(
            a@,
            img.width,
            img.height,
            nwidth,
            nheight,
        ),
        _ => false,
    }
}

/// Resizes a picture as the parameters say: kept as it is where `resize_box`
/// gives no box, else fitted into the box, to the size `resized_size` gives,
/// at the same sample depth.
pub fn resizeimg(img: Picture, para: ResizeParameter) -> (r: Picture)
    requires
        img.wf(),
        resize_defined(img.width, img.height, para),
        resize_possible(img.width, img.height, para, sample_bytes(img.pixels)),
    ensures
        r.wf(),
        match resize_box(img.width, img.height, para) {
            None => r == img,
            Some((bw, bh)) => {
                &&& (r.width, r.height) == resized_size(img.width, img.height, bw, bh)
                &&& resampled(img, r, bw, bh)
            },
        },
        // A box of at least one on each side is never exceeded, and one side reaches it.
        match resize_box(img.width, img.height, para) {
            Some((bw, bh)) => bw >= 1 && bh >= 1 ==> {
                &&& 1 <= r.width <= bw
                &&& 1 <= r.height <= bh
                &&& (r.width == bw || r.height == bh)
            },
            None => true,
        },
        // Not enlarging by width never makes a picture wider.
        spec_mode(para.mode@) == Some(ResizeMode::ByWidth) && para.donotenlager && para.width
            >= 1 ==> r.width <= img.width,
        // Not enlarging by height never makes a picture higher.
        spec_mode(para.mode@) == Some(ResizeMode::ByHeight) && para.donotenlager && para.height
            >= 1 ==> r.height <= img.height,
        // Not enlarging by largest side keeps a picture that already fits.
        spec_mode(para.mode@) == Some(ResizeMode::ByMaxSize) && para.donotenlager && img.width
            <= para.maxsize && img.height <= para.maxsize ==> r == img,
        // At one hundred percent a picture keeps its size.
        spec_mode(para.mode@) == Some(ResizeMode::Percentage) && para.percentage == 100 ==> r.width
            == img.width && r.height == img.height,
{
    proof {
        if spec_mode(para.mode@) == Some(ResizeMode::Percentage) && para.percentage == 100 {
            law_full_percentage_box(img.width, img.height, para);
        }
        if img.width >= 1 && img.height >= 1 {
            law_resized_size_own_box(img.width, img.height);
        }
    }
    match resize_target(img.width, img.height, para) {
        None => img,
        Some((bw, bh)) => {
            proof {
                if bw >= 1 && bh >= 1 {
                    law_resized_size_fits(img.width, img.height, bw, bh);
                }
            }
            match img.pixels {
                PixelData::Rgba8(v) => {
                    let (w, h, s) = resize_rgba8(img.width, img.height, &v, bw, bh);
                    Picture { width: w, height: h, pixels: PixelData::Rgba8(s) }
                },
                PixelData::Rgba16(v) => {
                    let (w, h, s) = resize_rgba16(img.width, img.height, &v, bw, bh);
                    Picture { width: w, height: h, pixels: PixelData::Rgba16(s) }
                },
            }
        },
    }
}

/// The number of samples of a picture.
fn samples_len(d: &PixelData) -> (r: usize)
    ensures
        r == sample_count(*d),
{
    match d {
        PixelData::Rgba8(v) => v.len(),
        PixelData::Rgba16(v) => v.len(),
    }
}

/// Whether `resizeimg` may be called on this picture with these parameters:
/// the picture is well formed, the mode is one of the four, a percentage does
/// not overflow the sides, and where the picture is to be fitted into a box,
/// it is not empty and the buffers fit.
pub fn can_resize(img: &Picture, para: ResizeParameter) -> (r: bool)
    ensures
        r == {
            &&& img.wf()
            &&& resize_defined(img.width, img.height, para)
            &&& resize_possible(img.width, img.height, para, sample_bytes(img.pixels))
        },
{
    if !samples_match(img.width, img.height, samples_len(&img.pixels)) {
        return false;
    }
    let mode = parse_mode(para.mode);
    if mode.is_none() {
        return false;
    }
    if mode == Some(ResizeMode::Percentage) {
        let w64 = img.width as u64;
        let h64 = img.height as u64;
        let p64 = para.percentage as u64;
        assert(w64 * p64 <= 0xffff_ffffu64 * 0xffff_ffffu64 && h64 * p64 <= 0xffff_ffffu64
            * 0xffff_ffffu64) by (nonlinear_arith)
            requires
                w64 <= 0xffff_ffff,
                h64 <= 0xffff_ffff,
                p64 <= 0xffff_ffff,
        ;
        let pw: u64 = w64 * p64;
        let ph: u64 = h64 * p64;
        if pw > 0xffff_ffff || ph > 0xffff_ffff {
            return false;
        }
    }
    let bytes: u128 = match img.pixels {
        PixelData::Rgba8(_) => 1,
        PixelData::Rgba16(_) => 2,
    };
    match resize_target(img.width, img.height, para) {
        None => true,
        Some((bw, bh)) => {
            if img.width == 0 || img.height == 0 {
                return false;
            }
            let w128 = img.width as u128;
            let w2: u128 = if bw == 0 {
                1
            } else {
                bw as u128
            };
            let h2: u128 = if bh == 0 {
                1
            } else {
                bh as u128
            };
            assert(w128 * h2 <= 0xffff_ffffu128 * 0xffff_ffffu128) by (nonlinear_arith)
                requires
                    w128 <= 0xffff_ffff,
                    h2 <= 0xffff_ffff,
            ;
            assert(w2 * h2 <= 0xffff_ffffu128 * 0xffff_ffffu128) by (nonlinear_arith)
                requires
                    w2 <= 0xffff_ffff,
                    h2 <= 0xffff_ffff,
            ;
            w128 * h2 * 4 * bytes <= isize::MAX as u128 && w2 * h2 * 4 * bytes
                <= isize::MAX as u128
        },
    }
}

/// At one hundred percent, the box is the picture's own size.
pub proof fn law_full_percentage_box(width: u32, height: u32, para: ResizeParameter)
    requires
        spec_mode(para.mode@) == Some(ResizeMode::Percentage),
        para.percentage == 100,
    ensures
        resize_box(width, height, para) == Some((width, height)),
{
    assert(width * 100 / 100 == width) by (nonlinear_arith);
    assert(height * 100 / 100 == height) by (nonlinear_arith);
}

/// The mode names differ from one another.
proof fn lemma_mode_names_distinct()
    ensures
        "ByWidth"@ != "ByHeight"@,
        "ByWidth"@ != "ByMaxSize"@,
        "ByWidth"@ != "Percentage"@,
        "ByHeight"@ != "ByMaxSize"@,
        "ByHeight"@ != "Percentage"@,
        "ByMaxSize"@ != "Percentage"@,
{
    reveal_strlit("ByWidth");
    reveal_strlit("ByHeight");
    reveal_strlit("ByMaxSize");
    reveal_strlit("Percentage");
    assert("ByWidth"@.len() == 7);
    assert("ByHeight"@.len() == 8);
    assert("ByMaxSize"@.len() == 9);
    assert("Percentage"@.len() == 10);
}

/// The box each mode name gives, for every picture size and every parameter:
/// - `ByWidth`: the width parameter by a million, or none when not enlarging
///   and the picture is no wider than the width parameter;
/// - `ByHeight`: a million by the height parameter, or none when not enlarging
///   and the picture is no higher than the height parameter;
/// - `ByMaxSize`: `maxsize` by `maxsize`, or none when not enlarging and the
///   picture fits within it;
/// - `Percentage`: each side times the percentage over 100, rounded down, for
///   every percentage, below or above 100, whatever "do not enlarge" says;
/// - any other name: none.
pub proof fn law_resize_box_by_mode_name(width: u32, height: u32, para: ResizeParameter)
    ensures
        para.mode@ == "ByWidth"@ ==> resize_box(width, height, para) == if para.donotenlager
            && width <= para.width {
            None
        } else {
            Some((para.width, 1000000u32))
        },
        para.mode@ == "ByHeight"@ ==> resize_box(width, height, para) == if para.donotenlager
            && height <= para.height {
            None
        } else {
            Some((1000000u32, para.height))
        },
        para.mode@ == "ByMaxSize"@ ==> resize_box(width, height, para) == if para.donotenlager
            && width <= para.maxsize && height <= para.maxsize {
            None
        } else {
            Some((para.maxsize, para.maxsize))
        },
        para.mode@ == "Percentage"@ && width * para.percentage <= u32::MAX && height
            * para.percentage <= u32::MAX ==> resize_box(width, height, para) == Some(
            ((width * para.percentage / 100) as u32, (height * para.percentage / 100) as u32),
        ),
        para.mode@ == "Percentage"@ && width * para.percentage <= u32::MAX && height
            * para.percentage <= u32::MAX ==> ({
            let (bw, bh) = resize_box(width, height, para).unwrap();
            &&& bw * 100 <= width * para.percentage < (bw + 1) * 100
            &&& bh * 100 <= height * para.percentage < (bh + 1) * 100
        }),
        !(para.mode@ == "ByWidth"@ || para.mode@ == "ByHeight"@ || para.mode@ == "ByMaxSize"@
            || para.mode@ == "Percentage"@) ==> resize_box(width, height, para) is None,
{
    lemma_mode_names_distinct();
    if para.mode@ == "Percentage"@ && width * para.percentage <= u32::MAX && height
        * para.percentage <= u32::MAX {
        let a = width * para.percentage;
        let b = height * para.percentage;
        assert((a / 100) * 100 <= a < (a / 100 + 1) * 100) by (nonlinear_arith)
            requires
                a >= 0,
        ;
        assert((b / 100) * 100 <= b < (b / 100 + 1) * 100) by (nonlinear_arith)
            requires
                b >= 0,
        ;
    }
}

/// By percentage, a percentage of 100 or more gives a box at least as large as
/// the picture on each side: the picture is enlarged, whatever "do not
/// enlarge" says.
pub proof fn law_percentage_enlarges(width: u32, height: u32, para: ResizeParameter)
    requires
        para.mode@ == "Percentage"@,
        width * para.percentage <= u32::MAX,
        height * para.percentage <= u32::MAX,
        para.percentage >= 100,
    ensures
        resize_box(width, height, para) matches Some((bw, bh)) && bw >= width && bh >= height,
{
    law_resize_box_by_mode_name(width, height, para);
    let a = width * para.percentage;
    assert(a / 100 >= width) by (nonlinear_arith)
        requires
            a == width * para.percentage,
            para.percentage >= 100,
            width >= 0,
    ;
    let b = height * para.percentage;
    assert(b / 100 >= height) by (nonlinear_arith)
        requires
            b == height * para.percentage,
            para.percentage >= 100,
            height >= 0,
    ;
}

} // verus!
