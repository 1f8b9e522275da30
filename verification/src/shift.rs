//! Cyclic pixel shifts: every pixel moves by the same distance along one
//! axis and wraps round at the edge.

use crate::raster::{
    lemma_byte_coordinates, lemma_gather_channel, lemma_offset_in_data, PixelBuffer, Raster,
};
use crate::registry::Operator;
use vstd::arithmetic::div_mod::*;
use vstd::prelude::*;

verus! {

/// The axis along which pixels move.
#[derive(Clone, Copy, Debug, PartialEq, Eq)]
pub enum ShiftAxis {
    Horizontal,
    Vertical,
}

impl Raster {
    /// The length of the image along `axis`.
    pub open spec fn extent(self, axis: ShiftAxis) -> nat {
        match axis {
            ShiftAxis::Horizontal => self.width,
            ShiftAxis::Vertical => self.height,
        }
    }

    /// Where the pixel comes from that a shift by `shift` along `axis` puts
    /// at `(x, y)`.
    pub open spec fn shift_source(self, shift: nat, axis: ShiftAxis, x: int, y: int) -> (int, int) {
        match axis {
            ShiftAxis::Horizontal => ((x - shift) % (self.width as int), y),
            ShiftAxis::Vertical => (x, (y - shift) % (self.height as int)),
        }
    }

    /// The image in which every pixel has moved by `shift` along `axis`,
    /// modulo the image's length along that axis.
    pub open spec fn shifted(self, shift: nat, axis: ShiftAxis) -> Raster {
        self.gather(
            self.width,
            self.height,
            |x: int, y: int| self.shift_source(shift, axis, x, y),
        )
    }
}

/// The distance that is used for a sampled one: 0 where the image is at most
/// one pixel long, else the sampled distance brought into `1 ..= dim - 1`.
pub open spec fn clamped_shift(dim: u32, sampled: u32) -> u32 {
    if dim <= 1 {
        0
    } else if sampled < 1 {
        1
    } else if sampled > dim - 1 {
        (dim - 1) as u32
    } else {
        sampled
    }
}

/// The distance that, added to `shift`, wraps once round an axis of length
/// `dim`.
pub open spec fn complement(dim: u32, shift: u32) -> u32
    recommends
        shift <= dim,
{
    if dim == 0 {
        0
    } else {
        ((dim - shift) % (dim as int)) as u32
    }
}

/// The distance of a shift: the clamped sample, or its complement where
/// `keep` is false.
pub open spec fn chosen_shift(dim: u32, sampled: u32, keep: bool) -> u32 {
    if keep {
        clamped_shift(dim, sampled)
    } else {
        complement(dim, clamped_shift(dim, sampled))
    }
}

/// Whether a distance is sampled at all for an axis of length `dim`: not for
/// one of at most one pixel, where every shift is the identity.
pub fn samples_distance(dim: u32) -> (yes: bool)
    ensures
        yes == (dim > 1),
{
    dim > 1
}

/// Brings a sampled distance into the range of shifts that change the image.
pub fn clamp_shift(dim: u32, sampled: u32) -> (shift: u32)
    ensures
        shift == clamped_shift(dim, sampled),
        dim <= 1 ==> shift == 0,
        dim > 1 ==> 1 <= shift <= dim - 1,
{
    if dim <= 1 {
        0
    } else if sampled < 1 {
        1
    } else if sampled > dim - 1 {
        dim - 1
    } else {
        sampled
    }
}

/// Chooses between a sampled distance and its complement.
pub fn choose_shift(dim: u32, sampled: u32, keep: bool) -> (shift: u32)
    ensures
        shift == chosen_shift(dim, sampled, keep),
        dim <= 1 ==> shift == 0,
        dim > 1 ==> 1 <= shift <= dim - 1,
{
    let clamped = clamp_shift(dim, sampled);
    if keep || dim == 0 {
        clamped
    } else {
        proof {
            if dim > 1 {
                lemma_small_mod((dim - clamped) as nat, dim as nat);
            }
        }
        (dim - clamped) % dim
    }
}

/// Going back by `shift` is going forward by the complement of `shift`
/// modulo `w`.
proof fn lemma_back_shift(x: int, w: int, shift: int)
    requires
        0 <= x < w,
        0 <= shift,
    ensures
        (x + (w - shift % w) % w) % w == (x - shift) % w,
        0 <= (w - shift % w) % w < w,
{
    let m = shift % w;
    let q = shift / w;
    let b = (w - m) % w;
    lemma_fundamental_div_mod(shift, w);
    lemma_fundamental_div_mod(x - shift, w);
    let r = (x - shift) % w;
    let q2 = (x - shift) / w;
    if m == 0 {
        assert(b == 0) by {
            lemma_mod_self_0(w);
        }
        assert(x == (q2 + q) * w + r) by (nonlinear_arith)
            requires
                x - shift == w * q2 + r,
                shift == w * q,
        ;
        lemma_fundamental_div_mod_converse(x, w, q2 + q, r);
    } else {
        lemma_small_mod((w - m) as nat, w as nat);
        assert(x + b == (q2 + q + 1) * w + r) by (nonlinear_arith)
            requires
                x - shift == w * q2 + r,
                shift == w * q + m,
                b == w - m,
        ;
        lemma_fundamental_div_mod_converse(x + b, w, q2 + q + 1, r);
    }
}

/// Coming from `t = (x + a) % w` and going back by `b` arrives at `x`,
/// where `b - a` is a multiple of `w`.
proof fn lemma_there_and_back(x: int, w: int, a: int, b: int, k: int)
    requires
        0 <= x < w,
        b - a == k * w,
    ensures
        (((x + a) % w) - b) % w == x,
        0 <= (x + a) % w < w,
{
    let t = (x + a) % w;
    let q = (x + a) / w;
    lemma_fundamental_div_mod(x + a, w);
    assert(t - b == (-q - k) * w + x) by (nonlinear_arith)
        requires
            x + a == w * q + t,
            b - a == k * w,
    ;
    lemma_fundamental_div_mod_converse(t - b, w, -q - k, x);
}

/// A shift by `shift` along `axis` puts the pixel `(x, y)` at the position
/// that lies `shift` further along the axis, modulo the image's length
/// along it. The other coordinate stays.
pub proof fn lemma_shift_moves_pixels(r: Raster, shift: nat, axis: ShiftAxis, x: int, y: int, c: int)
    requires
        r.wf(),
        r.contains(x, y),
        0 <= c < 4,
    ensures
        r.shifted(shift, axis).wf(),
        r.shifted(shift, axis).width == r.width,
        r.shifted(shift, axis).height == r.height,
        axis == ShiftAxis::Horizontal ==> r.shifted(shift, axis).channel(
            (x + shift) % (r.width as int),
            y,
            c,
        ) == r.channel(x, y, c),
        axis == ShiftAxis::Vertical ==> r.shifted(shift, axis).channel(
            x,
            (y + shift) % (r.height as int),
            c,
        ) == r.channel(x, y, c),
{
    let source = |x: int, y: int| r.shift_source(shift, axis, x, y);
    match axis {
        ShiftAxis::Horizontal => {
            let w = r.width as int;
            lemma_there_and_back(x, w, shift as int, shift as int, 0);
            lemma_gather_channel(r, r.width, r.height, source, (x + shift) % w, y, c);
        },
        ShiftAxis::Vertical => {
            let h = r.height as int;
            lemma_there_and_back(y, h, shift as int, shift as int, 0);
            lemma_gather_channel(r, r.width, r.height, source, x, (y + shift) % h, c);
        },
    }
}

/// Shifting by `d` and then by what is left of the axis gives the image
/// back, byte for byte.
pub proof fn lemma_shift_round_trip(r: Raster, d: nat, axis: ShiftAxis)
    requires
        r.wf(),
        d <= r.extent(axis),
    ensures
        r.shifted(d, axis).shifted((r.extent(axis) - d) as nat, axis) == r,
{
    let e = (r.extent(axis) - d) as nat;
    let mid = r.shifted(d, axis);
    let out = mid.shifted(e, axis);
    let w = r.width as int;
    let h = r.height as int;
    let first = |x: int, y: int| r.shift_source(d, axis, x, y);
    assert forall|i: int| 0 <= i < r.data.len() implies out.data[i] == r.data[i] by {
        let x = (i / 4) % w;
        let y = (i / 4) / w;
        let c = i % 4;
        lemma_byte_coordinates(r, i);
        let from = mid.shift_source(e, axis, x, y);
        match axis {
            ShiftAxis::Horizontal => lemma_there_and_back(x, w, -(e as int), d as int, 1),
            ShiftAxis::Vertical => lemma_there_and_back(y, h, -(e as int), d as int, 1),
        }
        lemma_gather_channel(r, r.width, r.height, first, from.0, from.1, c);
        assert(r.shift_source(d, axis, from.0, from.1) == (x, y));
    }
    assert(out.data =~= r.data);
}

/// The distance to go forward along an axis of length `dim` in order to
/// find the pixel that a shift by `shift` puts here.
fn back_shift(dim: u32, shift: u32) -> (back: u32)
    ensures
        dim > 0 ==> back == (dim - shift % dim) % (dim as int),
        dim > 0 ==> back < dim,
        dim == 0 ==> back == 0,
{
    if dim == 0 {
        0
    } else {
        (dim - shift % dim) % dim
    }
}

/// The coordinate `back` further along an axis of length `dim`, wrapping
/// round.
fn wrapped(at: u32, back: u32, dim: u32) -> (from: u32)
    requires
        at < dim,
        back < dim,
    ensures
        from == (at + back) % (dim as int),
        from < dim,
{
    let sum: u64 = at as u64 + back as u64;
    (sum % (dim as u64)) as u32
}

/// Moves every pixel of `img` by `shift_pixels` along `axis`, wrapping round
/// at the edge.
pub fn shift_image(img: &PixelBuffer, shift_pixels: u32, axis: ShiftAxis) -> (out: PixelBuffer)
    ensures
        out@ == img@.shifted(shift_pixels as nat, axis),
{
    proof {
        use_type_invariant(img);
    }
    let width = img.width;
    let height = img.height;
    let total = img.data.len();
    let back_x = match axis {
        ShiftAxis::Horizontal => back_shift(width, shift_pixels),
        ShiftAxis::Vertical => 0,
    };
    let back_y = match axis {
        ShiftAxis::Horizontal => 0,
        ShiftAxis::Vertical => back_shift(height, shift_pixels),
    };
    let ghost shift = shift_pixels as nat;
    let ghost want = img@.shifted(shift, axis);
    proof {
        assert forall|x: int, y: int| 0 <= x < width && 0 <= y < height implies #[trigger] img@.shift_source(
            shift,
            axis,
            x,
            y,
        ) == ((x + back_x) % (width as int), (y + back_y) % (height as int)) by {
            lemma_small_mod(x as nat, width as nat);
            lemma_small_mod(y as nat, height as nat);
            match axis {
                ShiftAxis::Horizontal => lemma_back_shift(x, width as int, shift as int),
                ShiftAxis::Vertical => lemma_back_shift(y, height as int, shift as int),
            }
        }
    }
    let mut data: Vec<u8> = Vec::with_capacity(total);
    let mut y: u32 = 0;
    while y < height
        invariant
            y <= height,
            width == img.width,
            height == img.height,
            img@.wf(),
            want == img@.shifted(shift, axis),
            data@.len() == 4 * (y * width),
            forall|i: int| 0 <= i < data@.len() && i < want.data.len() ==> data@[i] == want.data[i],
            width > 0 ==> back_x < width,
            height > 0 ==> back_y < height,
            forall|x: int, y: int|
                0 <= x < width && 0 <= y < height ==> #[trigger] img@.shift_source(shift, axis, x, y)
                    == ((x + back_x) % (width as int), (y + back_y) % (height as int)),
        decreases height - y,
    {
        let mut x: u32 = 0;
        while x < width
            invariant
                x <= width,
                y < height,
                width == img.width,
                height == img.height,
                img@.wf(),
                want == img@.shifted(shift, axis),
                data@.len() == 4 * (y * width + x),
                forall|i: int| 0 <= i < data@.len() && i < want.data.len() ==> data@[i] == want.data[i],
                width > 0 ==> back_x < width,
                back_y < height,
                forall|x: int, y: int|
                    0 <= x < width && 0 <= y < height ==> #[trigger] img@.shift_source(
                        shift,
                        axis,
                        x,
                        y,
                    ) == ((x + back_x) % (width as int), (y + back_y) % (height as int)),
            decreases width - x,
        {
            let from_x = wrapped(x, back_x, width);
            let from_y = wrapped(y, back_y, height);
            let at = img.offset(from_x, from_y);
            proof {
                let source = |x: int, y: int| img@.shift_source(shift, axis, x, y);
                assert(source(x as int, y as int) == (from_x as int, from_y as int));
                lemma_offset_in_data(want, x as int, y as int);
                lemma_gather_channel(img@, width as nat, height as nat, source, x as int, y as int, 0);
                lemma_gather_channel(img@, width as nat, height as nat, source, x as int, y as int, 1);
                lemma_gather_channel(img@, width as nat, height as nat, source, x as int, y as int, 2);
                lemma_gather_channel(img@, width as nat, height as nat, source, x as int, y as int, 3);
            }
            data.push(img.data[at]);
            data.push(img.data[at + 1]);
            data.push(img.data[at + 2]);
            data.push(img.data[at + 3]);
            x += 1;
        }
        proof {
            assert(4 * (y * width + width) == 4 * ((y + 1) * width)) by (nonlinear_arith);
        }
        y += 1;
    }
    proof {
        assert(want.data.len() == 4 * (height * width)) by (nonlinear_arith)
            requires
                want.data.len() == 4 * ((width as int) * (height as int)),
        ;
        assert(data@ =~= want.data);
    }
    PixelBuffer { width, height, data }
}

impl Operator {
    /// The axis along which the transformation shifts, if it is a shift.
    pub open spec fn shift_axis(self) -> Option<ShiftAxis> {
        match self {
            Operator::ShiftH => Some(ShiftAxis::Horizontal),
            Operator::ShiftV => Some(ShiftAxis::Vertical),
            _ => None,
        }
    }
}

/// The axis along which `operator` shifts, if it is a shift.
pub fn shift_axis_of(operator: Operator) -> (axis: Option<ShiftAxis>)
    ensures
        axis == operator.shift_axis(),
{
    match operator {
        Operator::ShiftH => Some(ShiftAxis::Horizontal),
        Operator::ShiftV => Some(ShiftAxis::Vertical),
        _ => None,
    }
}

/// Shifts `img` along `axis` by the distance that the sampled distance and
/// the choice `keep` stand for.
pub fn apply_shift(img: &PixelBuffer, axis: ShiftAxis, sampled: u32, keep: bool) -> (out:
    PixelBuffer)
    ensures
        out@ == img@.shifted(
            chosen_shift(img@.extent(axis) as u32, sampled, keep) as nat,
            axis,
        ),
{
    let dim = match axis {
        ShiftAxis::Horizontal => img.width,
        ShiftAxis::Vertical => img.height,
    };
    shift_image(img, choose_shift(dim, sampled, keep), axis)
}

} // verus!
