//! The transformations that draw no random numbers of their own: turns,
//! mirror images, and colour changes by a given amount. The pixel work is
//! done by the `image` crate.

use crate::raster::{lemma_gather_round_trip, lemma_scatter_is_gather, PixelBuffer, Raster};
use crate::registry::Operator;
use vstd::prelude::*;

verus! {

/// The luma of a colour: red, green and blue weighted by 0.2126, 0.7152 and
/// 0.0722, rounded down.
pub open spec fn luma_of(red: u8, green: u8, blue: u8) -> u8 {
    ((2126 * red + 7152 * green + 722 * blue) / 10000) as u8
}

/// Whether `rotated` are bytes that `image::imageops::huerotate` gives for
/// the bytes `data` and the angle `degrees`. This is a relation and no
/// function: the colours come out of floating-point arithmetic with the sine
/// and cosine of the angle, which need not round alike everywhere, so two
/// rotations of one image are not known to agree.
pub uninterp spec fn is_hue_rotation(data: Seq<u8>, degrees: int, rotated: Seq<u8>) -> bool;

/// A channel value that has `0 ..= 255` as its range.
pub open spec fn clamp_channel(value: int) -> u8 {
    if value < 0 {
        0
    } else if value > 255 {
        255
    } else {
        value as u8
    }
}

impl Raster {
    /// The image turned clockwise by a quarter turn: the pixel `(x, y)` comes
    /// from `(y, height - 1 - x)`.
    pub open spec fn rotated90(self) -> Raster {
        self.gather(self.height, self.width, |x: int, y: int| (y, self.height - 1 - x))
    }

    /// The image turned by a half turn.
    pub open spec fn rotated180(self) -> Raster {
        self.gather(
            self.width,
            self.height,
            |x: int, y: int| (self.width - 1 - x, self.height - 1 - y),
        )
    }

    /// The image turned clockwise by three quarter turns: the pixel `(x, y)`
    /// comes from `(width - 1 - y, x)`.
    pub open spec fn rotated270(self) -> Raster {
        self.gather(self.height, self.width, |x: int, y: int| (self.width - 1 - y, x))
    }

    /// The image with left and right exchanged.
    pub open spec fn flipped_horizontally(self) -> Raster {
        self.gather(self.width, self.height, |x: int, y: int| (self.width - 1 - x, y))
    }

    /// The image with top and bottom exchanged.
    pub open spec fn flipped_vertically(self) -> Raster {
        self.gather(self.width, self.height, |x: int, y: int| (x, self.height - 1 - y))
    }

    /// The image with the same dimensions in which every byte is `f` of its
    /// position.
    pub open spec fn with_bytes(self, f: spec_fn(int) -> u8) -> Raster {
        Raster { width: self.width, height: self.height, data: Seq::new(self.data.len(), f) }
    }

    /// The image with red, green and blue replaced by their complements to
    /// 255. Alpha stays.
    pub open spec fn inverted(self) -> Raster {
        self.with_bytes(
            |i: int|
                if i % 4 < 3 {
                    (255 - self.data[i]) as u8
                } else {
                    self.data[i]
                },
        )
    }

    /// The image with red, green and blue replaced by the pixel's luma.
    /// Alpha stays.
    pub open spec fn grayscaled(self) -> Raster {
        self.with_bytes(
            |i: int|
                if i % 4 < 3 {
                    luma_of(
                        self.data[4 * (i / 4)],
                        self.data[4 * (i / 4) + 1],
                        self.data[4 * (i / 4) + 2],
                    )
                } else {
                    self.data[i]
                },
        )
    }

    /// The image with `delta` added to red, green and blue, each kept
    /// within its range. Alpha stays.
    pub open spec fn brightened(self, delta: int) -> Raster {
        self.with_bytes(
            |i: int|
                if i % 4 < 3 {
                    clamp_channel(self.data[i] + delta)
                } else {
                    self.data[i]
                },
        )
    }

    /// The image has the dimensions of `other`, and the same alpha at every
    /// pixel.
    pub open spec fn same_shape_and_alpha(self, other: Raster) -> bool {
        &&& self.width == other.width
        &&& self.height == other.height
        &&& self.data.len() == other.data.len()
        &&& forall|i: int|
            0 <= i < self.data.len() && i % 4 == 3 ==> #[trigger] self.data[i] == other.data[i]
    }

    /// The image holds every pixel of `input` at the place where `forward`
    /// puts it.
    pub open spec fn holds_moved(self, input: Raster, forward: spec_fn(int, int) -> (int, int)) -> bool {
        forall|x: int, y: int, c: int|
            input.contains(x, y) && 0 <= c < 4 ==> self.channel(
                forward(x, y).0,
                forward(x, y).1,
                c,
            ) == #[trigger] input.channel(x, y, c)
    }
}

/// Calls `image::imageops::rotate90`. Trusted: width and height change
/// places, and the pixel `(x, y)` of an image of height `h` is put at
/// `(h - 1 - y, x)`.
#[verifier::external_body]
fn image_rotate90(img: &PixelBuffer) -> (out: PixelBuffer)
    requires
        img@.wf(),
        img@.area() > 0,
    ensures
        out@.wf(),
        out@.width == img@.height,
        out@.height == img@.width,
        out@.holds_moved(img@, |x: int, y: int| (img@.height - 1 - y, x)),
{
    let source = image::ImageBuffer::<image::Rgba<u8>, &[u8]>::from_raw(
        img.width,
        img.height,
        img.data.as_slice(),
    ).unwrap();
    let turned = image::imageops::rotate90(&source);
    PixelBuffer { width: turned.width(), height: turned.height(), data: turned.into_raw() }
}

/// Calls `image::imageops::rotate180`. Trusted: the dimensions stay, and the
/// pixel `(x, y)` of an image of width `w` and height `h` is put at
/// `(w - 1 - x, h - 1 - y)`.
#[verifier::external_body]
fn image_rotate180(img: &PixelBuffer) -> (out: PixelBuffer)
    requires
        img@.wf(),
        img@.area() > 0,
    ensures
        out@.wf(),
        out@.width == img@.width,
        out@.height == img@.height,
        out@.holds_moved(img@, |x: int, y: int| (img@.width - 1 - x, img@.height - 1 - y)),
{
    let source = image::ImageBuffer::<image::Rgba<u8>, &[u8]>::from_raw(
        img.width,
        img.height,
        img.data.as_slice(),
    ).unwrap();
    let turned = image::imageops::rotate180(&source);
    PixelBuffer { width: turned.width(), height: turned.height(), data: turned.into_raw() }
}

/// Calls `image::imageops::rotate270`. Trusted: width and height change
/// places, and the pixel `(x, y)` of an image of width `w` is put at
/// `(y, w - 1 - x)`.
#[verifier::external_body]
fn image_rotate270(img: &PixelBuffer) -> (out: PixelBuffer)
    requires
        img@.wf(),
        img@.area() > 0,
    ensures
        out@.wf(),
        out@.width == img@.height,
        out@.height == img@.width,
        out@.holds_moved(img@, |x: int, y: int| (y, img@.width - 1 - x)),
{
    let source = image::ImageBuffer::<image::Rgba<u8>, &[u8]>::from_raw(
        img.width,
        img.height,
        img.data.as_slice(),
    ).unwrap();
    let turned = image::imageops::rotate270(&source);
    PixelBuffer { width: turned.width(), height: turned.height(), data: turned.into_raw() }
}

/// Calls `image::imageops::flip_horizontal`. Trusted: the dimensions stay,
/// and the pixel `(x, y)` of an image of width `w` is put at
/// `(w - 1 - x, y)`.
#[verifier::external_body]
fn image_flip_horizontal(img: &PixelBuffer) -> (out: PixelBuffer)
    requires
        img@.wf(),
        img@.area() > 0,
    ensures
        out@.wf(),
        out@.width == img@.width,
        out@.height == img@.height,
        out@.holds_moved(img@, |x: int, y: int| (img@.width - 1 - x, y)),
{
    let source = image::ImageBuffer::<image::Rgba<u8>, &[u8]>::from_raw(
        img.width,
        img.height,
        img.data.as_slice(),
    ).unwrap();
    let flipped = image::imageops::flip_horizontal(&source);
    PixelBuffer { width: flipped.width(), height: flipped.height(), data: flipped.into_raw() }
}

/// Calls `image::imageops::flip_vertical`. Trusted: the dimensions stay, and
/// the pixel `(x, y)` of an image of height `h` is put at `(x, h - 1 - y)`.
#[verifier::external_body]
fn image_flip_vertical(img: &PixelBuffer) -> (out: PixelBuffer)
    requires
        img@.wf(),
        img@.area() > 0,
    ensures
        out@.wf(),
        out@.width == img@.width,
        out@.height == img@.height,
        out@.holds_moved(img@, |x: int, y: int| (x, img@.height - 1 - y)),
{
    let source = image::ImageBuffer::<image::Rgba<u8>, &[u8]>::from_raw(
        img.width,
        img.height,
        img.data.as_slice(),
    ).unwrap();
    let flipped = image::imageops::flip_vertical(&source);
    PixelBuffer { width: flipped.width(), height: flipped.height(), data: flipped.into_raw() }
}

/// Calls `image::imageops::invert` on a copy. Trusted: red, green and blue
/// of every pixel become 255 minus what they were, and alpha stays.
#[verifier::external_body]
fn image_invert(img: &PixelBuffer) -> (out: PixelBuffer)
    requires
        img@.wf(),
        img@.area() > 0,
    ensures
        out@ == img@.inverted(),
{
    let mut copy = image::RgbaImage::from_raw(img.width, img.height, img.data.clone()).unwrap();
    image::imageops::invert(&mut copy);
    PixelBuffer { width: copy.width(), height: copy.height(), data: copy.into_raw() }
}

/// Calls `image::imageops::grayscale_alpha` and hands out its bytes, two
/// for each pixel. Trusted: the first is the luma of the pixel's red, green
/// and blue, the second is the pixel's alpha.
#[verifier::external_body]
fn image_grayscale_alpha(img: &PixelBuffer) -> (luma_alpha: Vec<u8>)
    requires
        img@.wf(),
        img@.area() > 0,
    ensures
        luma_alpha@.len() == 2 * img@.area(),
        forall|i: int|
            0 <= i < img@.area() ==> #[trigger] luma_alpha@[2 * i] == luma_of(
                img@.data[4 * i],
                img@.data[4 * i + 1],
                img@.data[4 * i + 2],
            ) && luma_alpha@[2 * i + 1] == img@.data[4 * i + 3],
{
    let source = image::ImageBuffer::<image::Rgba<u8>, &[u8]>::from_raw(
        img.width,
        img.height,
        img.data.as_slice(),
    ).unwrap();
    image::imageops::grayscale_alpha(&source).into_raw()
}

/// Calls `image::imageops::brighten`. Trusted: `value` is added to red,
/// green and blue of every pixel, each result kept within `0 ..= 255`, and
/// alpha stays.
#[verifier::external_body]
fn image_brighten(img: &PixelBuffer, value: i32) -> (out: PixelBuffer)
    requires
        img@.wf(),
        img@.area() > 0,
        -255 <= value <= 255,
    ensures
        out@ == img@.brightened(value as int),
{
    let source = image::ImageBuffer::<image::Rgba<u8>, &[u8]>::from_raw(
        img.width,
        img.height,
        img.data.as_slice(),
    ).unwrap();
    let bright = image::imageops::brighten(&source, value);
    PixelBuffer { width: bright.width(), height: bright.height(), data: bright.into_raw() }
}

/// Calls `image::imageops::huerotate`. Trusted: the result has the
/// dimensions of the image and the same alpha at every pixel, and its bytes
/// are a hue rotation of the image's bytes by the angle. Of red, green and
/// blue nothing more is stated: they come out of floating-point arithmetic.
#[verifier::external_body]
fn image_huerotate(img: &PixelBuffer, degrees: i32) -> (out: PixelBuffer)
    requires
        img@.wf(),
        img@.area() > 0 || img@.width == 0,
    ensures
        out@.wf(),
        is_hue_rotation(img@.data, degrees as int, out@.data),
        out@.same_shape_and_alpha(img@),
{
    let source = image::ImageBuffer::<image::Rgba<u8>, &[u8]>::from_raw(
        img.width,
        img.height,
        img.data.as_slice(),
    ).unwrap();
    let turned = image::imageops::huerotate(&source, degrees);
    PixelBuffer { width: turned.width(), height: turned.height(), data: turned.into_raw() }
}

/// Two half turns give the image back.
pub proof fn lemma_half_turn_twice(r: Raster)
    requires
        r.wf(),
    ensures
        r.rotated180().rotated180() == r,
{
    let mid = r.rotated180();
    lemma_gather_round_trip(
        r,
        r.width,
        r.height,
        |x: int, y: int| (r.width - 1 - x, r.height - 1 - y),
        |x: int, y: int| (mid.width - 1 - x, mid.height - 1 - y),
    );
}

/// A quarter turn and three quarter turns give the image back, in either
/// order.
pub proof fn lemma_quarter_turns_cancel(r: Raster)
    requires
        r.wf(),
    ensures
        r.rotated90().rotated270() == r,
        r.rotated270().rotated90() == r,
{
    let right = r.rotated90();
    lemma_gather_round_trip(
        r,
        r.height,
        r.width,
        |x: int, y: int| (y, r.height - 1 - x),
        |x: int, y: int| (right.width - 1 - y, x),
    );
    let left = r.rotated270();
    lemma_gather_round_trip(
        r,
        r.height,
        r.width,
        |x: int, y: int| (r.width - 1 - y, x),
        |x: int, y: int| (y, left.height - 1 - x),
    );
}

/// Exchanging the sides twice gives the image back.
pub proof fn lemma_flip_twice(r: Raster)
    requires
        r.wf(),
    ensures
        r.flipped_horizontally().flipped_horizontally() == r,
        r.flipped_vertically().flipped_vertically() == r,
{
    let across = r.flipped_horizontally();
    lemma_gather_round_trip(
        r,
        r.width,
        r.height,
        |x: int, y: int| (r.width - 1 - x, y),
        |x: int, y: int| (across.width - 1 - x, y),
    );
    let down = r.flipped_vertically();
    lemma_gather_round_trip(
        r,
        r.width,
        r.height,
        |x: int, y: int| (x, r.height - 1 - y),
        |x: int, y: int| (x, down.height - 1 - y),
    );
}

/// The complement of the complement is the image.
pub proof fn lemma_invert_twice(r: Raster)
    ensures
        r.inverted().inverted() == r,
{
    assert(r.inverted().inverted().data =~= r.data);
}

/// An image without pixels.
fn empty_image(width: u32, height: u32) -> (out: PixelBuffer)
    requires
        width == 0 || height == 0,
    ensures
        out@ == (Raster { width: width as nat, height: height as nat, data: Seq::empty() }),
{
    assert((width as int) * (height as int) == 0) by (nonlinear_arith)
        requires
            width == 0 || height == 0,
    ;
    PixelBuffer { width, height, data: Vec::new() }
}

/// An image of which one side is 0 has no pixels, and neither has the same
/// image turned.
proof fn lemma_no_pixels(r: Raster)
    requires
        r.wf(),
        r.width == 0 || r.height == 0,
    ensures
        r.area() == 0,
        r.data.len() == 0,
        (r.height as int) * (r.width as int) == 0,
{
    assert((r.width as int) * (r.height as int) == 0 && (r.height as int) * (r.width as int) == 0)
        by (nonlinear_arith)
        requires
            r.width == 0 || r.height == 0,
    ;
}

/// An image with a pixel has a positive area.
proof fn lemma_some_pixels(r: Raster)
    requires
        r.width > 0,
        r.height > 0,
    ensures
        r.area() > 0,
{
    assert((r.width as int) * (r.height as int) > 0) by (nonlinear_arith)
        requires
            r.width > 0,
            r.height > 0,
    ;
}

/// Turns the image clockwise by a quarter turn.
pub fn rotate90(img: &PixelBuffer) -> (out: PixelBuffer)
    ensures
        out@ == img@.rotated90(),
{
    proof {
        use_type_invariant(img);
    }
    if img.width == 0 || img.height == 0 {
        proof {
            lemma_no_pixels(img@);
        }
        let out = empty_image(img.height, img.width);
        assert(out@.data =~= img@.rotated90().data);
        out
    } else {
        proof {
            lemma_some_pixels(img@);
        }
        let out = image_rotate90(img);
        proof {
            lemma_scatter_is_gather(
                img@,
                out@,
                |x: int, y: int| (img@.height - 1 - y, x),
                |x: int, y: int| (y, img@.height - 1 - x),
            );
        }
        out
    }
}

/// Turns the image by a half turn.
pub fn rotate180(img: &PixelBuffer) -> (out: PixelBuffer)
    ensures
        out@ == img@.rotated180(),
{
    proof {
        use_type_invariant(img);
    }
    if img.width == 0 || img.height == 0 {
        proof {
            lemma_no_pixels(img@);
        }
        let out = empty_image(img.width, img.height);
        assert(out@.data =~= img@.rotated180().data);
        out
    } else {
        proof {
            lemma_some_pixels(img@);
        }
        let out = image_rotate180(img);
        proof {
            lemma_scatter_is_gather(
                img@,
                out@,
                |x: int, y: int| (img@.width - 1 - x, img@.height - 1 - y),
                |x: int, y: int| (img@.width - 1 - x, img@.height - 1 - y),
            );
        }
        out
    }
}

/// Turns the image clockwise by three quarter turns.
pub fn rotate270(img: &PixelBuffer) -> (out: PixelBuffer)
    ensures
        out@ == img@.rotated270(),
{
    proof {
        use_type_invariant(img);
    }
    if img.width == 0 || img.height == 0 {
        proof {
            lemma_no_pixels(img@);
        }
        let out = empty_image(img.height, img.width);
        assert(out@.data =~= img@.rotated270().data);
        out
    } else {
        proof {
            lemma_some_pixels(img@);
        }
        let out = image_rotate270(img);
        proof {
            lemma_scatter_is_gather(
                img@,
                out@,
                |x: int, y: int| (y, img@.width - 1 - x),
                |x: int, y: int| (img@.width - 1 - y, x),
            );
        }
        out
    }
}

/// Exchanges left and right.
pub fn fliph(img: &PixelBuffer) -> (out: PixelBuffer)
    ensures
        out@ == img@.flipped_horizontally(),
{
    proof {
        use_type_invariant(img);
    }
    if img.width == 0 || img.height == 0 {
        proof {
            lemma_no_pixels(img@);
        }
        let out = empty_image(img.width, img.height);
        assert(out@.data =~= img@.flipped_horizontally().data);
        out
    } else {
        proof {
            lemma_some_pixels(img@);
        }
        let out = image_flip_horizontal(img);
        proof {
            lemma_scatter_is_gather(
                img@,
                out@,
                |x: int, y: int| (img@.width - 1 - x, y),
                |x: int, y: int| (img@.width - 1 - x, y),
            );
        }
        out
    }
}

/// Exchanges top and bottom.
pub fn flipv(img: &PixelBuffer) -> (out: PixelBuffer)
    ensures
        out@ == img@.flipped_vertically(),
{
    proof {
        use_type_invariant(img);
    }
    if img.width == 0 || img.height == 0 {
        proof {
            lemma_no_pixels(img@);
        }
        let out = empty_image(img.width, img.height);
        assert(out@.data =~= img@.flipped_vertically().data);
        out
    } else {
        proof {
            lemma_some_pixels(img@);
        }
        let out = image_flip_vertical(img);
        proof {
            lemma_scatter_is_gather(
                img@,
                out@,
                |x: int, y: int| (x, img@.height - 1 - y),
                |x: int, y: int| (x, img@.height - 1 - y),
            );
        }
        out
    }
}

/// Replaces red, green and blue of every pixel by their complements.
pub fn invert(img: &PixelBuffer) -> (out: PixelBuffer)
    ensures
        out@ == img@.inverted(),
{
    proof {
        use_type_invariant(img);
    }
    if img.width == 0 || img.height == 0 {
        proof {
            lemma_no_pixels(img@);
        }
        let out = empty_image(img.width, img.height);
        assert(out@.data =~= img@.inverted().data);
        out
    } else {
        proof {
            lemma_some_pixels(img@);
        }
        image_invert(img)
    }
}

/// Replaces red, green and blue of every pixel by the pixel's luma.
pub fn grayscale(img: &PixelBuffer) -> (out: PixelBuffer)
    ensures
        out@ == img@.grayscaled(),
{
    proof {
        use_type_invariant(img);
    }
    if img.width == 0 || img.height == 0 {
        proof {
            lemma_no_pixels(img@);
        }
        let out = empty_image(img.width, img.height);
        assert(out@.data =~= img@.grayscaled().data);
        return out;
    }
    proof {
        lemma_some_pixels(img@);
    }
    let luma_alpha = image_grayscale_alpha(img);
    let pixels = luma_alpha.len() / 2;
    let ghost want = img@.grayscaled();
    let mut data: Vec<u8> = Vec::with_capacity(img.data.len());
    let mut i: usize = 0;
    while i < pixels
        invariant
            i <= pixels,
            pixels == img@.area(),
            img@.wf(),
            want == img@.grayscaled(),
            luma_alpha@.len() == 2 * pixels,
            luma_alpha@.len() <= usize::MAX,
            forall|k: int|
                0 <= k < pixels ==> #[trigger] luma_alpha@[2 * k] == luma_of(
                    img@.data[4 * k],
                    img@.data[4 * k + 1],
                    img@.data[4 * k + 2],
                ) && luma_alpha@[2 * k + 1] == img@.data[4 * k + 3],
            data@.len() == 4 * i,
            forall|j: int| 0 <= j < 4 * i ==> data@[j] == want.data[j],
        decreases pixels - i,
    {
        let luma = luma_alpha[2 * i];
        let alpha = luma_alpha[2 * i + 1];
        proof {
            let k = i as int;
            assert(luma_alpha@[2 * k] == luma);
            let p = img@.data.subrange(4 * k, 4 * k + 4);
            assert(p[0] == img@.data[4 * k] && p[1] == img@.data[4 * k + 1] && p[2] == img@.data[4
                * k + 2] && p[3] == img@.data[4 * k + 3]);
            assert((4 * k) / 4 == k && (4 * k + 1) / 4 == k && (4 * k + 2) / 4 == k && (4 * k + 3)
                / 4 == k);
            assert(want.data[4 * k] == luma);
            assert(want.data[4 * k + 1] == luma);
            assert(want.data[4 * k + 2] == luma);
            assert(want.data[4 * k + 3] == alpha);
        }
        data.push(luma);
        data.push(luma);
        data.push(luma);
        data.push(alpha);
        i += 1;
    }
    assert(data@ =~= want.data);
    PixelBuffer { width: img.width, height: img.height, data }
}

/// Adds `delta` to red, green and blue of every pixel and keeps each within
/// its range.
pub fn brighten(img: &PixelBuffer, delta: i32) -> (out: PixelBuffer)
    ensures
        out@ == img@.brightened(delta as int),
{
    proof {
        use_type_invariant(img);
    }
    if img.width == 0 || img.height == 0 {
        proof {
            lemma_no_pixels(img@);
        }
        let out = empty_image(img.width, img.height);
        assert(out@.data =~= img@.brightened(delta as int).data);
        return out;
    }
    proof {
        lemma_some_pixels(img@);
    }
    let value = if delta > 255 {
        255
    } else if delta < -255 {
        -255
    } else {
        delta
    };
    let out = image_brighten(img, value);
    assert(out@.data =~= img@.brightened(delta as int).data);
    out
}

/// Turns the hue of every pixel by `degrees`. Alpha stays.
pub fn huerotate(img: &PixelBuffer, degrees: i32) -> (out: PixelBuffer)
    ensures
        out@.wf(),
        is_hue_rotation(img@.data, degrees as int, out@.data),
        out@.same_shape_and_alpha(img@),
{
    proof {
        use_type_invariant(img);
    }
    if img.width == 0 || img.height == 0 {
        proof {
            lemma_no_pixels(img@);
        }
        let nothing = image_huerotate(&empty_image(0, 0), degrees);
        assert(img@.data =~= Seq::<u8>::empty());
        assert(nothing@.data =~= img@.data);
        PixelBuffer { width: img.width, height: img.height, data: nothing.data }
    } else {
        proof {
            lemma_some_pixels(img@);
        }
        image_huerotate(img, degrees)
    }
}

impl Operator {
    /// Whether the transformation takes no parameter: what it makes of an
    /// image depends on the image alone.
    pub open spec fn takes_no_parameter(self) -> bool {
        self.fixed_result(Raster { width: 0, height: 0, data: Seq::empty() }) is Some
    }

    /// What the transformation makes of an image, where that depends on
    /// the image alone.
    pub open spec fn fixed_result(self, r: Raster) -> Option<Raster> {
        match self {
            Operator::Rotate90 => Some(r.rotated90()),
            Operator::Rotate180 => Some(r.rotated180()),
            Operator::Rotate270 => Some(r.rotated270()),
            Operator::FlipH => Some(r.flipped_horizontally()),
            Operator::FlipV => Some(r.flipped_vertically()),
            Operator::Grayscale => Some(r.grayscaled()),
            Operator::Invert => Some(r.inverted()),
            _ => None,
        }
    }
}

/// Applies a transformation that takes no parameter. One that takes a
/// parameter is not applied.
pub fn apply_fixed(operator: Operator, img: &PixelBuffer) -> (out: Option<PixelBuffer>)
    ensures
        out is Some <==> operator.fixed_result(img@) is Some,
        out matches Some(result) ==> Some(result@) == operator.fixed_result(img@),
{
    match operator {
        Operator::Rotate90 => Some(rotate90(img)),
        Operator::Rotate180 => Some(rotate180(img)),
        Operator::Rotate270 => Some(rotate270(img)),
        Operator::FlipH => Some(fliph(img)),
        Operator::FlipV => Some(flipv(img)),
        Operator::Grayscale => Some(grayscale(img)),
        Operator::Invert => Some(invert(img)),
        _ => None,
    }
}

} // verus!
