//! Logos: a PNG decoded and shrunk toward the size that it is shown at.

use vstd::prelude::*;

verus! {

/// How a decoded PNG stores a pixel.
#[derive(Clone, Copy, Debug, PartialEq, Eq, Structural)]
pub enum PixelLayout {
    Grayscale,
    Rgb,
    Indexed,
    GrayscaleAlpha,
    Rgba,
}

/// A decoded PNG.
#[derive(Debug)]
pub struct Png {
    pub width: u32,
    pub height: u32,
    pub layout: PixelLayout,
    pub data: Vec<u8>,
}

/// A [`Png`] as contracts speak of it.
pub struct PngView {
    pub width: u32,
    pub height: u32,
    pub layout: PixelLayout,
    pub data: Seq<u8>,
}

impl DeepView for Png {
    type V = PngView;

    open spec fn deep_view(&self) -> PngView {
        PngView {
            width: self.width,
            height: self.height,
            layout: self.layout,
            data: self.data@,
        }
    }
}

/// The first frame that `png::Decoder` reads from some bytes, where it reads one.
pub uninterp spec fn png_decoded(bytes: Seq<u8>) -> Option<PngView>;

/// `png::Decoder` up to the first frame (`read_info`, `output_buffer_size`,
/// `next_frame`): nothing where one of them fails, and otherwise the frame's size,
/// its color type and its bytes; the result goes by the name [`png_decoded`].
#[verifier::external_body]
fn png_decode(bytes: &[u8]) -> (r: Option<Png>)
    ensures
        r.deep_view() == png_decoded(bytes@),
{
    let mut reader = png::Decoder::new(std::io::Cursor::new(bytes)).read_info().ok()?;
    let mut data = vec![0; reader.output_buffer_size()?];
    let info = reader.next_frame(&mut data).ok()?;
    data.truncate(info.buffer_size());
    let layout = match info.color_type {
        png::ColorType::Grayscale => PixelLayout::Grayscale,
        png::ColorType::Rgb => PixelLayout::Rgb,
        png::ColorType::Indexed => PixelLayout::Indexed,
        png::ColorType::GrayscaleAlpha => PixelLayout::GrayscaleAlpha,
        png::ColorType::Rgba => PixelLayout::Rgba,
    };
    Some(Png { width: info.width, height: info.height, layout, data })
}

/// An image: rows of pixels, each of a red, green, blue and alpha byte.
#[derive(Debug)]
pub struct Pixels {
    pub width: usize,
    pub height: usize,
    pub rgba: Vec<u8>,
}

/// [`Pixels`] as contracts speak of them.
pub struct PixelsView {
    pub width: nat,
    pub height: nat,
    pub rgba: Seq<u8>,
}

impl DeepView for Pixels {
    type V = PixelsView;

    open spec fn deep_view(&self) -> PixelsView {
        PixelsView {
            width: self.width as nat,
            height: self.height as nat,
            rgba: self.rgba@,
        }
    }
}

impl PixelsView {
    /// Whether there are as many bytes as the size asks for.
    pub open spec fn wf(self) -> bool {
        self.rgba.len() == self.width * self.height * 4
    }

    /// A byte of a pixel.
    pub open spec fn at(self, x: int, y: int, c: int) -> int {
        self.rgba[(y * self.width + x) * 4 + c] as int
    }

    /// What the four pixels that make up pixel `(x, y)` of the half-sized image
    /// have of alpha.
    pub open spec fn alpha_sum(self, x: int, y: int) -> int {
        self.at(2 * x, 2 * y, 3) + self.at(2 * x + 1, 2 * y, 3) + self.at(2 * x, 2 * y + 1, 3)
            + self.at(2 * x + 1, 2 * y + 1, 3)
    }

    /// What those four pixels have of a channel, each by its alpha.
    pub open spec fn weighted_sum(self, x: int, y: int, c: int) -> int {
        self.at(2 * x, 2 * y, c) * self.at(2 * x, 2 * y, 3) + self.at(2 * x + 1, 2 * y, c)
            * self.at(2 * x + 1, 2 * y, 3) + self.at(2 * x, 2 * y + 1, c) * self.at(
            2 * x,
            2 * y + 1,
            3,
        ) + self.at(2 * x + 1, 2 * y + 1, c) * self.at(2 * x + 1, 2 * y + 1, 3)
    }

    /// A byte of a pixel of the half-sized image: alpha is the mean of the four
    /// pixels, and a color is their mean by alpha.
    pub open spec fn half_byte(self, x: int, y: int, c: int) -> int {
        if c == 3 {
            self.alpha_sum(x, y) / 4
        } else if self.alpha_sum(x, y) > 0 {
            self.weighted_sum(x, y, c) / self.alpha_sum(x, y)
        } else {
            0
        }
    }

    /// The image at half its width and height.
    pub open spec fn halved(self) -> PixelsView {
        let w = self.width / 2;
        let h = self.height / 2;
        PixelsView {
            width: w,
            height: h,
            rgba: Seq::new(
                w * h * 4,
                |o: int| self.half_byte((o / 4) % (w as int), (o / 4) / (w as int), o % 4) as u8,
            ),
        }
    }

    /// Whether both sides are larger than `max_dim` and can be halved.
    pub open spec fn too_large(self, max_dim: nat) -> bool {
        self.width > max_dim && self.height > max_dim && self.width % 2 == 0 && self.height % 2
            == 0
    }

    /// The image, halved as long as it is too large.
    pub open spec fn shrunk(self, max_dim: nat) -> PixelsView
        decreases self.width,
    {
        if self.too_large(max_dim) {
            self.halved().shrunk(max_dim)
        } else {
            self
        }
    }
}

/// A pixel inside an image has a place among its pixels.
proof fn lemma_inside(x: int, y: int, w: int, h: int)
    requires
        0 <= x < w,
        0 <= y < h,
    ensures
        0 <= y * w,
        y * w + x < w * h,
        y * w + w <= w * h,
{
    assert(0 <= y * w && y * w + w <= w * h) by (nonlinear_arith)
        requires
            0 <= y < h,
            0 < w,
    ;
}

/// The place of a pixel gives its row and column back.
proof fn lemma_place(x: int, y: int, w: int)
    requires
        0 <= x < w,
        0 <= y,
    ensures
        (y * w + x) / w == y,
        (y * w + x) % w == x,
{
    vstd::arithmetic::div_mod::lemma_fundamental_div_mod_converse(y * w + x, w, y, x);
}

/// A mean by weights lies among what it is a mean of.
proof fn lemma_mean(v0: int, a0: int, v1: int, a1: int, v2: int, a2: int, v3: int, a3: int)
    requires
        0 <= v0 <= 255 && 0 <= v1 <= 255 && 0 <= v2 <= 255 && 0 <= v3 <= 255,
        0 <= a0 <= 255 && 0 <= a1 <= 255 && 0 <= a2 <= 255 && 0 <= a3 <= 255,
    ensures
        0 <= v0 * a0 <= 255 * a0,
        0 <= v1 * a1 <= 255 * a1,
        0 <= v2 * a2 <= 255 * a2,
        0 <= v3 * a3 <= 255 * a3,
        a0 + a1 + a2 + a3 > 0 ==> 0 <= (v0 * a0 + v1 * a1 + v2 * a2 + v3 * a3) / (a0 + a1 + a2 + a3)
            <= 255,
{
    assert(0 <= v0 * a0 <= 255 * a0) by (nonlinear_arith)
        requires
            0 <= v0 <= 255,
            0 <= a0,
    ;
    assert(0 <= v1 * a1 <= 255 * a1) by (nonlinear_arith)
        requires
            0 <= v1 <= 255,
            0 <= a1,
    ;
    assert(0 <= v2 * a2 <= 255 * a2) by (nonlinear_arith)
        requires
            0 <= v2 <= 255,
            0 <= a2,
    ;
    assert(0 <= v3 * a3 <= 255 * a3) by (nonlinear_arith)
        requires
            0 <= v3 <= 255,
            0 <= a3,
    ;
    let s = v0 * a0 + v1 * a1 + v2 * a2 + v3 * a3;
    let a = a0 + a1 + a2 + a3;
    if a > 0 {
        assert(0 <= s / a <= 255) by (nonlinear_arith)
            requires
                0 <= s <= 255 * a,
                a > 0,
        ;
    }
}

impl Pixels {
    /// A byte of a pixel.
    fn get(&self, x: usize, y: usize, c: usize) -> (b: u32)
        requires
            self.deep_view().wf(),
            x < self.width,
            y < self.height,
            c < 4,
        ensures
            b == self.deep_view().at(x as int, y as int, c as int),
            b <= 255,
    {
        proof {
            lemma_inside(x as int, y as int, self.width as int, self.height as int);
        }
        let n: usize = self.rgba.len();
        assert((y * self.width + x) * 4 + c < n);
        self.rgba[(y * self.width + x) * 4 + c] as u32
    }

    /// A channel of a pixel of the half-sized image.
    fn half(&self, x: usize, y: usize, c: usize) -> (b: u8)
        requires
            self.deep_view().wf(),
            2 * x + 1 < self.width,
            2 * y + 1 < self.height,
            c < 4,
        ensures
            b == self.deep_view().half_byte(x as int, y as int, c as int),
    {
        let a0: u32 = self.get(2 * x, 2 * y, 3);
        let a1: u32 = self.get(2 * x + 1, 2 * y, 3);
        let a2: u32 = self.get(2 * x, 2 * y + 1, 3);
        let a3: u32 = self.get(2 * x + 1, 2 * y + 1, 3);
        let a: u32 = a0 + a1 + a2 + a3;
        if c == 3 {
            return (a / 4) as u8;
        }
        if a == 0 {
            return 0;
        }
        let v0: u32 = self.get(2 * x, 2 * y, c);
        let v1: u32 = self.get(2 * x + 1, 2 * y, c);
        let v2: u32 = self.get(2 * x, 2 * y + 1, c);
        let v3: u32 = self.get(2 * x + 1, 2 * y + 1, c);
        proof {
            lemma_mean(
                v0 as int,
                a0 as int,
                v1 as int,
                a1 as int,
                v2 as int,
                a2 as int,
                v3 as int,
                a3 as int,
            );
        }
        ((v0 * a0 + v1 * a1 + v2 * a2 + v3 * a3) / a) as u8
    }

    /// The image at half its width and height.
    fn halve(&self) -> (r: Pixels)
        requires
            self.deep_view().wf(),
        ensures
            r.deep_view() == self.deep_view().halved(),
            r.deep_view().wf(),
    {
        let w: usize = self.width / 2;
        let h: usize = self.height / 2;
        let ghost p = self.deep_view();
        let ghost goal = p.halved();
        let mut out: Vec<u8> = Vec::new();
        let mut y: usize = 0;
        while y < h
            invariant
                y <= h,
                w == self.width / 2,
                h == self.height / 2,
                p == self.deep_view(),
                p.wf(),
                goal == p.halved(),
                out@.len() == y * w * 4,
                y * w * 4 <= goal.rgba.len(),
                forall|o: int| 0 <= o < out@.len() ==> out@[o] == #[trigger] goal.rgba[o],
            decreases h - y,
        {
            assert(y * w + 0 == y * w);
            let mut x: usize = 0;
            while x < w
                invariant
                    x <= w,
                    y < h,
                    w == self.width / 2,
                    h == self.height / 2,
                    p == self.deep_view(),
                    p.wf(),
                    goal == p.halved(),
                    out@.len() == (y * w + x) * 4,
                    forall|o: int| 0 <= o < out@.len() ==> out@[o] == #[trigger] goal.rgba[o],
                decreases w - x,
            {
                proof {
                    lemma_inside(x as int, y as int, w as int, h as int);
                    lemma_place(x as int, y as int, w as int);
                }
                let ghost at = (y * w + x) * 4;
                assert(at + 4 <= goal.rgba.len());
                assert forall|c: int| 0 <= c < 4 implies #[trigger] goal.rgba[at + c] == p.half_byte(
                    x as int,
                    y as int,
                    c,
                ) as u8 by {
                    assert((at + c) / 4 == y * w + x);
                    assert((at + c) % 4 == c);
                }
                let ghost before = out@;
                out.push(self.half(x, y, 0));
                out.push(self.half(x, y, 1));
                out.push(self.half(x, y, 2));
                out.push(self.half(x, y, 3));
                assert forall|o: int| 0 <= o < out@.len() implies out@[o] == #[trigger] goal.rgba[o] by {
                    if o < at {
                        assert(out@[o] == before[o]);
                    } else {
                        assert(goal.rgba[at + (o - at)] == p.half_byte(
                            x as int,
                            y as int,
                            o - at,
                        ) as u8);
                    }
                }
                x = x + 1;
            }
            assert((y + 1) * w == y * w + w) by (nonlinear_arith);
            proof {
                if w > 0 {
                    lemma_inside(0, y as int, w as int, h as int);
                } else {
                    assert(y * w + w == 0) by (nonlinear_arith)
                        requires
                            w == 0,
                    ;
                }
            }
            y = y + 1;
        }
        assert(h * w == w * h) by (nonlinear_arith);
        let r = Pixels { width: w, height: h, rgba: out };
        assert(r.rgba@ =~= goal.rgba);
        r
    }

    /// The image, halved as long as both of its sides are larger than `max_dim`
    /// and even.
    pub fn shrink(self, max_dim: usize) -> (r: Pixels)
        requires
            self.deep_view().wf(),
        ensures
            r.deep_view() == self.deep_view().shrunk(max_dim as nat),
            r.deep_view().wf(),
    {
        let ghost goal = self.deep_view().shrunk(max_dim as nat);
        let mut r = self;
        while r.width > max_dim && r.height > max_dim && r.width % 2 == 0 && r.height % 2 == 0
            invariant
                r.deep_view().wf(),
                r.deep_view().shrunk(max_dim as nat) == goal,
            decreases r.width,
        {
            r = r.halve();
        }
        r
    }
}

impl PngView {
    /// Whether the pixels are stored as one byte per channel, without or with
    /// alpha.
    pub open spec fn usable(self) -> bool {
        ||| self.layout == PixelLayout::Rgba && self.data.len() == self.width * self.height * 4
        ||| self.layout == PixelLayout::Rgb && self.data.len() == self.width * self.height * 3
    }

    /// The image; without alpha it is opaque.
    pub open spec fn pixels(self) -> PixelsView {
        PixelsView {
            width: self.width as nat,
            height: self.height as nat,
            rgba: if self.layout == PixelLayout::Rgba {
                self.data
            } else {
                Seq::new(
                    (self.width * self.height * 4) as nat,
                    |o: int|
                        if o % 4 == 3 {
                            255u8
                        } else {
                            self.data[(o / 4) * 3 + o % 4]
                        },
                )
            },
        }
    }
}

/// Three bytes per pixel, with an opaque fourth behind each three.
fn with_alpha(data: &Vec<u8>) -> (r: Vec<u8>)
    requires
        data@.len() % 3 == 0,
    ensures
        r@.len() == data@.len() / 3 * 4,
        forall|o: int|
            0 <= o < r@.len() ==> #[trigger] r@[o] == (if o % 4 == 3 {
                255u8
            } else {
                data@[(o / 4) * 3 + o % 4]
            }),
{
    let mut r: Vec<u8> = Vec::new();
    let mut i: usize = 0;
    while i < data.len()
        invariant
            i <= data@.len(),
            i % 3 == 0,
            data@.len() % 3 == 0,
            r@.len() == i / 3 * 4,
            forall|o: int|
                0 <= o < r@.len() ==> #[trigger] r@[o] == (if o % 4 == 3 {
                    255u8
                } else {
                    data@[(o / 4) * 3 + o % 4]
                }),
        decreases data@.len() - i,
    {
        r.push(data[i]);
        r.push(data[i + 1]);
        r.push(data[i + 2]);
        r.push(255);
        i = i + 3;
    }
    r
}

/// The logo that a decoded PNG comes to.
pub open spec fn logo_of(png: Option<PngView>, max_dim: nat) -> Option<PixelsView> {
    match png {
        Some(p) => if p.usable() {
            Some(p.pixels().shrunk(max_dim))
        } else {
            None
        },
        None => None,
    }
}

/// The image that a decoded PNG holds, shrunk toward `max_dim`; nothing where its
/// pixels are not stored as one byte per channel.
pub fn logo_from(png: Option<Png>, max_dim: usize) -> (r: Option<Pixels>)
    ensures
        r.deep_view() == logo_of(png.deep_view(), max_dim as nat),
        r matches Some(p) ==> p.deep_view().wf(),
{
    let png = match png {
        Some(png) => png,
        None => {
            return None;
        },
    };
    let ghost p = png.deep_view();
    let n: u128 = png.data.len() as u128;
    proof {
        let w = png.width as int;
        let h = png.height as int;
        assert(0 <= w * h <= 0xFFFF_FFFF * 0xFFFF_FFFF) by (nonlinear_arith)
            requires
                0 <= w <= 0xFFFF_FFFF,
                0 <= h <= 0xFFFF_FFFF,
        ;
    }
    let count: u128 = png.width as u128 * png.height as u128;
    let rgba = match png.layout {
        PixelLayout::Rgba => {
            if n != count * 4 {
                return None;
            }
            png.data
        },
        PixelLayout::Rgb => {
            if n != count * 3 {
                return None;
            }
            let rgba = with_alpha(&png.data);
            assert(rgba@ =~= p.pixels().rgba);
            rgba
        },
        _ => {
            return None;
        },
    };
    let pixels = Pixels { width: png.width as usize, height: png.height as usize, rgba };
    Some(pixels.shrink(max_dim))
}

/// The logo in a PNG, shrunk toward `max_dim` so that scaling it down the rest of
/// the way stays smooth; nothing where the bytes are no PNG, or one whose pixels are
/// not stored as one byte per channel.
pub fn logo_pixels(bytes: &[u8], max_dim: usize) -> (r: Option<Pixels>)
    ensures
        r.deep_view() == logo_of(png_decoded(bytes@), max_dim as nat),
        r matches Some(p) ==> p.deep_view().wf(),
{
    logo_from(png_decode(bytes), max_dim)
}

/// What is shown is no longer too large, and no wider or higher than the image.
pub proof fn law_shrunk_is_small(p: PixelsView, max_dim: nat)
    ensures
        !p.shrunk(max_dim).too_large(max_dim),
        p.shrunk(max_dim).width <= p.width,
        p.shrunk(max_dim).height <= p.height,
    decreases p.width,
{
    if p.too_large(max_dim) {
        law_shrunk_is_small(p.halved(), max_dim);
    }
}

/// Whether two images look the same: they differ only in the color of pixels that
/// are fully transparent.
pub open spec fn look_the_same(p: PixelsView, q: PixelsView) -> bool {
    &&& p.width == q.width
    &&& p.height == q.height
    &&& p.wf()
    &&& q.wf()
    &&& forall|i: int|
        #![trigger p.rgba[4 * i + 3]]
        0 <= i < p.width * p.height ==> p.rgba[4 * i + 3] == q.rgba[4 * i + 3] && (p.rgba[4 * i
            + 3] > 0 ==> p.rgba[4 * i] == q.rgba[4 * i] && p.rgba[4 * i + 1] == q.rgba[4 * i + 1]
            && p.rgba[4 * i + 2] == q.rgba[4 * i + 2])
}

/// A pixel has the same share in both of two images that look the same.
proof fn lemma_same_share(p: PixelsView, q: PixelsView, x: int, y: int, c: int)
    requires
        look_the_same(p, q),
        0 <= x < p.width,
        0 <= y < p.height,
        0 <= c < 3,
    ensures
        p.at(x, y, 3) == q.at(x, y, 3),
        p.at(x, y, c) * p.at(x, y, 3) == q.at(x, y, c) * q.at(x, y, 3),
{
    lemma_inside(x, y, p.width as int, p.height as int);
    let i = y * p.width + x;
    assert(p.rgba[4 * i + 3] == q.rgba[4 * i + 3]);
    if p.rgba[4 * i + 3] > 0 {
        assert(p.rgba[4 * i + c] == q.rgba[4 * i + c]);
    } else {
        assert(p.at(x, y, c) * 0 == 0 && q.at(x, y, c) * 0 == 0);
    }
}

/// The color of a fully transparent pixel does not bleed into its neighbors:
/// images that look the same stay the same when halved.
pub proof fn law_transparent_pixels_do_not_bleed(p: PixelsView, q: PixelsView)
    requires
        look_the_same(p, q),
    ensures
        p.halved() == q.halved(),
{
    let w = (p.width / 2) as int;
    let h = (p.height / 2) as int;
    let a = p.halved().rgba;
    let b = q.halved().rgba;
    assert forall|o: int| 0 <= o < a.len() implies a[o] == b[o] by {
        let x = (o / 4) % w;
        let y = (o / 4) / w;
        let c = o % 4;
        assert(w > 0) by {
            if w == 0 {
                assert(w * h * 4 == 0) by (nonlinear_arith)
                    requires
                        w == 0,
                ;
            }
        }
        assert(0 <= x < w && 0 <= y < h) by (nonlinear_arith)
            requires
                w > 0,
                0 <= o < w * h * 4,
                x == (o / 4) % w,
                y == (o / 4) / w,
        ;
        let d = if c < 3 {
            c
        } else {
            0
        };
        lemma_same_share(p, q, 2 * x, 2 * y, d);
        lemma_same_share(p, q, 2 * x + 1, 2 * y, d);
        lemma_same_share(p, q, 2 * x, 2 * y + 1, d);
        lemma_same_share(p, q, 2 * x + 1, 2 * y + 1, d);
        assert(p.half_byte(x, y, c) == q.half_byte(x, y, c));
    }
    assert(a =~= b);
}

/// Four opaque pixels make an opaque one, whose color is their plain mean.
pub proof fn law_opaque_stays_opaque(p: PixelsView, x: int, y: int, c: int)
    requires
        p.at(2 * x, 2 * y, 3) == 255,
        p.at(2 * x + 1, 2 * y, 3) == 255,
        p.at(2 * x, 2 * y + 1, 3) == 255,
        p.at(2 * x + 1, 2 * y + 1, 3) == 255,
        0 <= c < 3,
    ensures
        p.half_byte(x, y, 3) == 255,
        p.half_byte(x, y, c) == (p.at(2 * x, 2 * y, c) + p.at(2 * x + 1, 2 * y, c) + p.at(
            2 * x,
            2 * y + 1,
            c,
        ) + p.at(2 * x + 1, 2 * y + 1, c)) / 4,
{
    let v0 = p.at(2 * x, 2 * y, c);
    let v1 = p.at(2 * x + 1, 2 * y, c);
    let v2 = p.at(2 * x, 2 * y + 1, c);
    let v3 = p.at(2 * x + 1, 2 * y + 1, c);
    assert(p.weighted_sum(x, y, c) == v0 * 255 + v1 * 255 + v2 * 255 + v3 * 255);
    assert(p.alpha_sum(x, y) == 1020);
}

} // verus!
