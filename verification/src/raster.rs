//! RGBA8 pixel buffers and the mathematical model that contracts speak of.

use vstd::arithmetic::div_mod::*;
use vstd::prelude::*;

verus! {

/// The model of an image: its dimensions and its bytes, four per pixel
/// (red, green, blue, alpha), row by row from the top left.
pub struct Raster {
    pub width: nat,
    pub height: nat,
    pub data: Seq<u8>,
}

impl Raster {
    /// The bytes cover the pixels exactly.
    pub open spec fn wf(self) -> bool {
        self.data.len() == 4 * self.area()
    }

    /// The number of pixels.
    pub open spec fn area(self) -> int {
        (self.width as int) * (self.height as int)
    }

    /// The pixel `(x, y)` lies inside the image.
    pub open spec fn contains(self, x: int, y: int) -> bool {
        0 <= x < self.width && 0 <= y < self.height
    }

    /// Where the pixel `(x, y)` starts in `data`.
    pub open spec fn offset(self, x: int, y: int) -> int {
        4 * (y * (self.width as int) + x)
    }

    /// Channel `c` of the pixel `(x, y)`.
    pub open spec fn channel(self, x: int, y: int, c: int) -> u8 {
        self.data[self.offset(x, y) + c]
    }

    /// The four bytes of the pixel `(x, y)`.
    pub open spec fn pixel(self, x: int, y: int) -> Seq<u8> {
        self.data.subrange(self.offset(x, y), self.offset(x, y) + 4)
    }

    /// The image of the given dimensions whose pixel `(x, y)` is this
    /// image's pixel `source(x, y)`.
    pub open spec fn gather(
        self,
        width: nat,
        height: nat,
        source: spec_fn(int, int) -> (int, int),
    ) -> Raster {
        Raster {
            width,
            height,
            data: Seq::new(
                (4 * ((width as int) * (height as int))) as nat,
                |i: int|
                    {
                        let from = source((i / 4) % (width as int), (i / 4) / (width as int));
                        self.channel(from.0, from.1, i % 4)
                    },
            ),
        }
    }
}

/// A pixel inside a well-formed image has its four bytes inside `data`.
pub proof fn lemma_offset_in_data(r: Raster, x: int, y: int)
    requires
        r.wf(),
        r.contains(x, y),
    ensures
        0 <= r.offset(x, y),
        r.offset(x, y) + 4 <= r.data.len(),
        0 <= y * (r.width as int) + x < r.area(),
{
    let w = r.width as int;
    let h = r.height as int;
    assert(y * w + x < w * h && 0 <= y * w) by (nonlinear_arith)
        requires
            0 <= x < w,
            0 <= y < h,
    ;
}

/// The position of a pixel in row-major order determines its coordinates.
pub proof fn lemma_row_major(w: int, x: int, y: int, c: int)
    requires
        0 <= x < w,
        0 <= y,
        0 <= c < 4,
    ensures
        (4 * (y * w + x) + c) / 4 == y * w + x,
        (4 * (y * w + x) + c) % 4 == c,
        (y * w + x) % w == x,
        (y * w + x) / w == y,
{
    lemma_fundamental_div_mod_converse(4 * (y * w + x) + c, 4, y * w + x, c);
    lemma_fundamental_div_mod_converse(y * w + x, w, y, x);
}

/// What `gather` puts at a pixel.
pub proof fn lemma_gather_channel(
    r: Raster,
    width: nat,
    height: nat,
    source: spec_fn(int, int) -> (int, int),
    x: int,
    y: int,
    c: int,
)
    requires
        0 <= x < width,
        0 <= y < height,
        0 <= c < 4,
    ensures
        r.gather(width, height, source).wf(),
        r.gather(width, height, source).channel(x, y, c) == r.channel(
            source(x, y).0,
            source(x, y).1,
            c,
        ),
{
    let out = r.gather(width, height, source);
    lemma_offset_in_data(out, x, y);
    lemma_row_major(width as int, x, y, c);
}

/// The coordinates of the pixel that holds byte `i` of a well-formed image.
pub proof fn lemma_byte_coordinates(r: Raster, i: int)
    requires
        r.wf(),
        0 <= i < r.data.len(),
    ensures
        r.contains((i / 4) % (r.width as int), (i / 4) / (r.width as int)),
        0 <= i % 4 < 4,
        r.offset((i / 4) % (r.width as int), (i / 4) / (r.width as int)) + i % 4 == i,
{
    let w = r.width as int;
    let h = r.height as int;
    let p = i / 4;
    assert(w > 0) by (nonlinear_arith)
        requires
            0 < 4 * (w * h),
            0 <= w,
    ;
    lemma_fundamental_div_mod(p, w);
    lemma_mod_division_less_than_divisor(p, w);
    lemma_multiply_divide_lt(p, w, h);
    lemma_div_pos_is_pos(p, w);
    assert(w * (p / w) == (p / w) * w) by (nonlinear_arith);
}

/// An image that holds every pixel of `input` at the place where `forward`
/// puts it is the image that takes its pixel at every place from where
/// `source`, the inverse of `forward`, finds it.
pub proof fn lemma_scatter_is_gather(
    input: Raster,
    out: Raster,
    forward: spec_fn(int, int) -> (int, int),
    source: spec_fn(int, int) -> (int, int),
)
    requires
        input.wf(),
        out.wf(),
        forall|x: int, y: int|
            out.contains(x, y) ==> input.contains(
                (#[trigger] source(x, y)).0,
                source(x, y).1,
            ) && forward(source(x, y).0, source(x, y).1) == (x, y),
        forall|x: int, y: int, c: int|
            input.contains(x, y) && 0 <= c < 4 ==> out.channel(
                forward(x, y).0,
                forward(x, y).1,
                c,
            ) == #[trigger] input.channel(x, y, c),
    ensures
        out == input.gather(out.width, out.height, source),
{
    let want = input.gather(out.width, out.height, source);
    assert forall|i: int| 0 <= i < out.data.len() implies out.data[i] == want.data[i] by {
        lemma_byte_coordinates(out, i);
        let x = (i / 4) % (out.width as int);
        let y = (i / 4) / (out.width as int);
        let from = source(x, y);
        assert(out.channel(forward(from.0, from.1).0, forward(from.0, from.1).1, i % 4)
            == input.channel(from.0, from.1, i % 4));
    }
    assert(out.data =~= want.data);
}

/// Moving the pixels of an image and then moving every pixel back gives the
/// image: a gather by `first` followed by a gather by `second` is the
/// identity where `first` undoes `second`.
pub proof fn lemma_gather_round_trip(
    r: Raster,
    width: nat,
    height: nat,
    first: spec_fn(int, int) -> (int, int),
    second: spec_fn(int, int) -> (int, int),
)
    requires
        r.wf(),
        forall|x: int, y: int|
            r.contains(x, y) ==> 0 <= (#[trigger] second(x, y)).0 < width && 0 <= second(x, y).1
                < height && first(second(x, y).0, second(x, y).1) == (x, y),
    ensures
        r.gather(width, height, first).gather(r.width, r.height, second) == r,
{
    let mid = r.gather(width, height, first);
    let out = mid.gather(r.width, r.height, second);
    assert forall|i: int| 0 <= i < r.data.len() implies out.data[i] == r.data[i] by {
        lemma_byte_coordinates(r, i);
        let x = (i / 4) % (r.width as int);
        let y = (i / 4) / (r.width as int);
        let from = second(x, y);
        lemma_gather_channel(r, width, height, first, from.0, from.1, i % 4);
    }
    assert(out.data =~= r.data);
}

/// An RGBA8 image held in memory.
pub struct PixelBuffer {
    pub(crate) width: u32,
    pub(crate) height: u32,
    pub(crate) data: Vec<u8>,
}

impl View for PixelBuffer {
    type V = Raster;

    open(crate) spec fn view(&self) -> Raster {
        Raster { width: self.width as nat, height: self.height as nat, data: self.data@ }
    }
}

impl PixelBuffer {
    #[verifier::type_invariant]
    pub(crate) open spec fn inv(&self) -> bool {
        self@.wf()
    }

    /// Takes ownership of `data` as the pixels of a `width` by `height`
    /// image, if it holds exactly four bytes for each pixel.
    pub fn from_raw(width: u32, height: u32, data: Vec<u8>) -> (out: Option<PixelBuffer>)
        ensures
            out is Some <==> data@.len() == 4 * ((width as int) * (height as int)),
            out matches Some(img) ==> img@ == (Raster {
                width: width as nat,
                height: height as nat,
                data: data@,
            }),
    {
        assert(0 <= (width as int) * (height as int) <= 0xffff_ffff * 0xffff_ffff)
            by (nonlinear_arith)
            requires
                0 <= width <= 0xffff_ffff,
                0 <= height <= 0xffff_ffff,
        ;
        let pixels: u64 = (width as u64) * (height as u64);
        let len = data.len();
        if pixels > (usize::MAX / 4) as u64 {
            return None;
        }
        if len != 4 * (pixels as usize) {
            return None;
        }
        Some(PixelBuffer { width, height, data })
    }

    /// The number of columns.
    pub fn width(&self) -> (w: u32)
        ensures
            w == self@.width,
            self@.wf(),
    {
        proof {
            use_type_invariant(self);
        }
        self.width
    }

    /// The number of rows.
    pub fn height(&self) -> (h: u32)
        ensures
            h == self@.height,
            self@.wf(),
    {
        proof {
            use_type_invariant(self);
        }
        self.height
    }

    /// The bytes of the image, four per pixel, row by row.
    pub fn as_raw(&self) -> (data: &Vec<u8>)
        ensures
            data@ == self@.data,
            self@.wf(),
    {
        proof {
            use_type_invariant(self);
        }
        &self.data
    }

    /// Gives the bytes of the image back.
    pub fn into_raw(self) -> (data: Vec<u8>)
        ensures
            data@ == self@.data,
    {
        self.data
    }

    /// Where the pixel `(x, y)` starts in the bytes.
    pub(crate) fn offset(&self, x: u32, y: u32) -> (at: usize)
        requires
            self@.contains(x as int, y as int),
        ensures
            at == self@.offset(x as int, y as int),
            at + 4 <= self.data@.len(),
    {
        let len = self.data.len();
        proof {
            use_type_invariant(self);
            lemma_offset_in_data(self@, x as int, y as int);
            assert(0 <= (y as int) * (self.width as int)) by (nonlinear_arith);
        }
        4 * ((y as usize) * (self.width as usize) + (x as usize))
    }

    /// The four bytes of the pixel `(x, y)`: red, green, blue, alpha.
    pub fn get_pixel(&self, x: u32, y: u32) -> (p: [u8; 4])
        requires
            self@.contains(x as int, y as int),
        ensures
            p@ == self@.pixel(x as int, y as int),
    {
        let at = self.offset(x, y);
        let p = [self.data[at], self.data[at + 1], self.data[at + 2], self.data[at + 3]];
        assert(p@ =~= self@.pixel(x as int, y as int));
        p
    }
}

} // verus!
