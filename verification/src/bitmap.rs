//! Bitmap input: decoding to RGBA, the black/white threshold used for
//! tracing, the content bounding box, and the conversion to a trace bitmap.
use vstd::prelude::*;
use crate::text::{push_str, string_from_chars};
use crate::settings::LegacySettings;
use crate::paths::{extension_of, path_extension};
use crate::potrace::{Bitmap, Error as TraceError, TurnPolicy, turn_policy_of};
use crate::settings::last_value;
use crate::text::{chars_of, parse_i32, parse_i32_chars};

verus! {

/// The luma below which a pixel counts as black.
pub const BITMAP_TRACE_THRESHOLD: u32 = 128;

/// Why a bitmap could not be vectorized.
#[derive(Debug, Clone, PartialEq, Eq)]
pub enum BitmapError {
    /// Decoding `path` failed with the decoder's message `source`.
    Decode { path: String, source: String },
    NativeTraceFailed { source: TraceError },
    Canceled,
}

impl BitmapError {
    /// The message shown for this error.
    pub fn message(&self) -> (r: String)
        ensures
            r@ == (match self {
                BitmapError::Decode { path, source } => "unable to decode bitmap `"@ + path@
                    + "`: "@ + source@,
                BitmapError::NativeTraceFailed { source } => "native bitmap trace failed: "@
                    + trace_error_text(*source),
                BitmapError::Canceled => "bitmap vectorization canceled"@,
            }),
    {
        let mut out: Vec<char> = Vec::new();
        match self {
            BitmapError::Decode { path, source } => {
                push_str(&mut out, "unable to decode bitmap `");
                push_str(&mut out, path.as_str());
                push_str(&mut out, "`: ");
                push_str(&mut out, source.as_str());
            },
            BitmapError::NativeTraceFailed { source } => {
                push_str(&mut out, "native bitmap trace failed: ");
                match source {
                    TraceError::InvalidBitmapDimensions => push_str(
                        &mut out,
                        "invalid bitmap dimensions",
                    ),
                    TraceError::InvalidBitmapData => push_str(&mut out, "invalid bitmap data"),
                }
            },
            BitmapError::Canceled => push_str(&mut out, "bitmap vectorization canceled"),
        }
        string_from_chars(&out)
    }
}

/// The message of a trace error.
pub open spec fn trace_error_text(e: TraceError) -> Seq<char> {
    match e {
        TraceError::InvalidBitmapDimensions => "invalid bitmap dimensions"@,
        TraceError::InvalidBitmapData => "invalid bitmap data"@,
    }
}

/// How many pixels of a traced image fell on each side of the threshold.
#[derive(Debug, Clone, Copy, Default, PartialEq, Eq)]
pub struct BitmapTraceStats {
    pub black_pixels: usize,
    pub white_pixels: usize,
}

/// The bitmap tracer.
#[derive(Debug, Clone, Copy, PartialEq, Eq)]
pub enum BitmapBackend {
    NativePotrace,
}

impl BitmapBackend {
    /// Reads a backend name. Every name, the legacy `vtracer` and Potrace
    /// sidecar names included, selects the native tracer.
    pub fn parse(value: &str) -> (r: Self)
        ensures
            r == BitmapBackend::NativePotrace,
    {
        BitmapBackend::NativePotrace
    }

    /// The backend a job selects; always the native tracer.
    pub fn from_settings(settings: &LegacySettings) -> (r: Self)
        ensures
            r == BitmapBackend::NativePotrace,
    {
        match settings.get_last("bitmap_backend") {
            Some(v) => Self::parse(v),
            None => BitmapBackend::NativePotrace,
        }
    }

    /// The settings value of this backend.
    pub fn value(self) -> (r: &'static str)
        ensures
            r@ == "native-potrace"@,
    {
        match self {
            BitmapBackend::NativePotrace => "native-potrace",
        }
    }

    /// The name shown for this backend.
    pub fn label(self) -> (r: &'static str)
        ensures
            r@ == "Native Rust"@,
    {
        match self {
            BitmapBackend::NativePotrace => "Native Rust",
        }
    }
}

/// A colour channel composited over a white background with opacity `alpha`.
pub open spec fn composite(channel: int, alpha: int) -> int {
    (channel * alpha + 255 * (255 - alpha)) / 255
}

/// The integer luma of an RGBA pixel composited over white.
pub open spec fn luma(r: u8, g: u8, b: u8, a: u8) -> int {
    (299 * composite(r as int, a as int) + 587 * composite(g as int, a as int) + 114 * composite(
        b as int,
        a as int,
    )) / 1000
}

/// Whether an RGBA pixel traces as black.
pub open spec fn is_black(r: u8, g: u8, b: u8, a: u8) -> bool {
    luma(r, g, b, a) < 128
}

/// Whether pixel `i` of a raw RGBA buffer traces as black.
pub open spec fn black_px(data: Seq<u8>, i: int) -> bool {
    is_black(data[4 * i], data[4 * i + 1], data[4 * i + 2], data[4 * i + 3])
}

/// Whether pixel `(x, y)` of a raw RGBA image `width` pixels wide traces as black.
pub open spec fn black_at(data: Seq<u8>, width: int, x: int, y: int) -> bool {
    black_px(data, y * width + x)
}

/// A raw RGBA image: `width * height` pixels, four bytes each, row by row.
pub open spec fn rgba_ok(width: u32, height: u32, data: Seq<u8>) -> bool {
    data.len() == 4 * (width as int) * (height as int)
}

/// Composites a channel over white.
pub fn composite_over_white(channel: u32, alpha: u32) -> (r: u32)
    requires
        channel <= 255,
        alpha <= 255,
    ensures
        r == composite(channel as int, alpha as int),
        r <= 255,
{
    assert(channel * alpha <= 255 * 255) by (nonlinear_arith)
        requires
            channel <= 255,
            alpha <= 255,
    ;
    assert((channel * alpha + 255 * (255 - alpha)) <= 255 * 255) by (nonlinear_arith)
        requires
            channel <= 255,
            alpha <= 255,
    ;
    (channel * alpha + 255 * (255 - alpha)) / 255
}

/// A pixel traces black exactly when its BT.601 luma over white is below
/// 128: red weighs 299, green 587 and blue 114 parts in a thousand. An
/// opaque pixel is taken as it is, and a fully transparent one is white.
pub proof fn law_trace_luma(r: u8, g: u8, b: u8, a: u8)
    ensures
        is_black(r, g, b, a) <==> 299 * ((r * a + 255 * (255 - a)) / 255) + 587 * ((g * a + 255 * (
        255 - a)) / 255) + 114 * ((b * a + 255 * (255 - a)) / 255) < 128000,
        is_black(r, g, b, 255) <==> 299 * r + 587 * g + 114 * b < 128000,
        !is_black(r, g, b, 0),
{
    let cr = composite(r as int, a as int);
    let cg = composite(g as int, a as int);
    let cb = composite(b as int, a as int);
    assert(0 <= r * a) by (nonlinear_arith);
    assert(0 <= g * a) by (nonlinear_arith);
    assert(0 <= b * a) by (nonlinear_arith);
    assert(cr >= 0 && cg >= 0 && cb >= 0);
    assert(r * 255 / 255 == r) by (nonlinear_arith);
    assert(r * 0 == 0);
    assert(g * 0 == 0 && b * 0 == 0);
    assert(g * 255 / 255 == g) by (nonlinear_arith);
    assert(b * 255 / 255 == b) by (nonlinear_arith);
}

/// Whether an RGBA pixel traces as black: its luma over white is below the threshold.
pub fn bitmap_pixel_is_black(pixel: [u8; 4]) -> (r: bool)
    ensures
        r == is_black(pixel[0], pixel[1], pixel[2], pixel[3]),
{
    let alpha = pixel[3] as u32;
    let red = composite_over_white(pixel[0] as u32, alpha);
    let green = composite_over_white(pixel[1] as u32, alpha);
    let blue = composite_over_white(pixel[2] as u32, alpha);
    let luma = (299 * red + 587 * green + 114 * blue) / 1000;
    luma < BITMAP_TRACE_THRESHOLD
}

fn pixel_black(data: &[u8], i: usize) -> (r: bool)
    requires
        4 * i + 3 < data.len(),
    ensures
        r == black_px(data@, i as int),
{
    bitmap_pixel_is_black([data[4 * i], data[4 * i + 1], data[4 * i + 2], data[4 * i + 3]])
}

/// The number of black pixels among the first `n` pixels.
pub open spec fn black_count(data: Seq<u8>, n: int) -> int
    decreases n,
{
    if n <= 0 {
        0
    } else {
        black_count(data, n - 1) + if black_px(data, n - 1) {
            1int
        } else {
            0
        }
    }
}

proof fn lemma_black_count_bound(data: Seq<u8>, n: int)
    requires
        n >= 0,
    ensures
        0 <= black_count(data, n) <= n,
    decreases n,
{
    if n > 0 {
        lemma_black_count_bound(data, n - 1);
    }
}

/// Pixel `i` of `mask` is the threshold colour of pixel `i` of `data`:
/// black `0,0,0,255` or white `255,255,255,255`.
pub open spec fn mask_px(mask: Seq<u8>, data: Seq<u8>, i: int) -> bool {
    let v: u8 = if black_px(data, i) {
        0
    } else {
        255
    };
    &&& mask[4 * i] == v
    &&& mask[4 * i + 1] == v
    &&& mask[4 * i + 2] == v
    &&& mask[4 * i + 3] == 255
}

/// The threshold mask of an image (each pixel black `0,0,0,255` or white
/// `255,255,255,255`), with the number of pixels on each side.
pub fn bitmap_trace_mask_and_stats(width: u32, height: u32, data: &[u8]) -> (r: (
    Vec<u8>,
    BitmapTraceStats,
))
    requires
        rgba_ok(width, height, data@),
    ensures
        r.0@.len() == data@.len(),
        forall|i: int|
            0 <= i < (width as int) * (height as int) ==> #[trigger] mask_px(r.0@, data@, i),
        r.1.black_pixels == black_count(data@, (width as int) * (height as int)),
        r.1.black_pixels + r.1.white_pixels == (width as int) * (height as int),
{
    let n: usize = data.len() / 4;
    assert(n == (width as int) * (height as int) && data@.len() == 4 * n) by (nonlinear_arith)
        requires
            data@.len() == 4 * (width as int) * (height as int),
            n == data@.len() / 4,
    ;
    let mut mask: Vec<u8> = Vec::new();
    let mut stats = BitmapTraceStats { black_pixels: 0, white_pixels: 0 };
    let mut i: usize = 0;
    while i < n
        invariant
            n == (width as int) * (height as int),
            data@.len() == 4 * n,
            i <= n,
            mask@.len() == 4 * i,
            forall|j: int| 0 <= j < i ==> #[trigger] mask_px(mask@, data@, j),
            stats.black_pixels == black_count(data@, i as int),
            stats.black_pixels + stats.white_pixels == i,
        decreases n - i,
    {
        proof {
            lemma_black_count_bound(data@, i as int);
        }
        let black = pixel_black(data, i);
        let ghost old_mask = mask@;
        let v: u8 = if black {
            stats.black_pixels = stats.black_pixels + 1;
            0
        } else {
            stats.white_pixels = stats.white_pixels + 1;
            255
        };
        mask.push(v);
        mask.push(v);
        mask.push(v);
        mask.push(255);
        proof {
            assert forall|j: int| 0 <= j < i + 1 implies #[trigger] mask_px(mask@, data@, j) by {
                if j < i {
                    assert(mask_px(old_mask, data@, j));
                }
            }
        }
        i = i + 1;
    }
    (mask, stats)
}

/// Whether the cancel hook asks to stop.
fn check_canceled<F: Fn() -> bool>(cancel: &F) -> (r: Result<(), BitmapError>)
    requires
        cancel.requires(()),
    ensures
        match r {
            Ok(()) => cancel.ensures((), false),
            Err(e) => e == BitmapError::Canceled && cancel.ensures((), true),
        },
{
    if cancel() {
        Err(BitmapError::Canceled)
    } else {
        Ok(())
    }
}

/// The inclusive box around the black pixels of an image.
#[derive(Debug, Clone, Copy, PartialEq, Eq)]
pub struct TraceContentBounds {
    pub min_x: u32,
    pub min_y: u32,
    pub max_x: u32,
    pub max_y: u32,
}

impl TraceContentBounds {
    /// The width of the box in pixels.
    pub fn width(self) -> (r: u32)
        requires
            self.min_x <= self.max_x,
            self.max_x - self.min_x + 1 <= u32::MAX,
        ensures
            r == self.max_x - self.min_x + 1,
    {
        self.max_x - self.min_x + 1
    }

    /// The height of the box in pixels.
    pub fn height(self) -> (r: u32)
        requires
            self.min_y <= self.max_y,
            self.max_y - self.min_y + 1 <= u32::MAX,
        ensures
            r == self.max_y - self.min_y + 1,
    {
        self.max_y - self.min_y + 1
    }
}

/// Pixel `(x, y)` of a `width * height` image.
pub open spec fn inside(width: int, height: int, x: int, y: int) -> bool {
    0 <= x < width && 0 <= y < height
}

/// `b` is the smallest box holding every black pixel of the image, or
/// `None` when the image has no black pixel.
pub open spec fn is_content_box(
    data: Seq<u8>,
    width: int,
    height: int,
    b: Option<TraceContentBounds>,
) -> bool {
    match b {
        None => forall|x: int, y: int|
            inside(width, height, x, y) ==> !#[trigger] black_at(data, width, x, y),
        Some(b) => {
            &&& b.min_x <= b.max_x < width
            &&& b.min_y <= b.max_y < height
            &&& forall|x: int, y: int|
                inside(width, height, x, y) && #[trigger] black_at(data, width, x, y) ==> b.min_x
                    <= x <= b.max_x && b.min_y <= y <= b.max_y
            &&& exists|y: int| 0 <= y < height && #[trigger] black_at(data, width, b.min_x as int, y)
            &&& exists|y: int| 0 <= y < height && #[trigger] black_at(data, width, b.max_x as int, y)
            &&& exists|x: int| 0 <= x < width && #[trigger] black_at(data, width, x, b.min_y as int)
            &&& exists|x: int| 0 <= x < width && #[trigger] black_at(data, width, x, b.max_y as int)
        },
    }
}

/// Pixel `(x, y)` comes before pixel `(cx, cy)` in row order.
pub open spec fn scanned(width: int, cx: int, cy: int, x: int, y: int) -> bool {
    0 <= x < width && 0 <= y && (y < cy || (y == cy && x < cx))
}

proof fn lemma_pixel_index(width: int, height: int, x: int, y: int)
    requires
        inside(width, height, x, y),
    ensures
        0 <= y * width + x < width * height,
        4 * (y * width + x) + 3 < 4 * width * height,
{
    assert(0 <= y * width + x < width * height) by (nonlinear_arith)
        requires
            0 <= x < width,
            0 <= y < height,
    ;
    assert(4 * (y * width + x) + 3 < 4 * width * height) by (nonlinear_arith)
        requires
            0 <= y * width + x < width * height,
    ;
}

/// The box around the black pixels of an image, scanning row by row and
/// asking `cancel` before each row.
pub fn trace_content_bounds<F: Fn() -> bool>(
    width: u32,
    height: u32,
    data: &[u8],
    cancel: &F,
) -> (r: Result<Option<TraceContentBounds>, BitmapError>)
    requires
        rgba_ok(width, height, data@),
        cancel.requires(()),
    ensures
        match r {
            Ok(b) => is_content_box(data@, width as int, height as int, b),
            Err(e) => e == BitmapError::Canceled,
        },
        (forall|b: bool| cancel.ensures((), b) ==> !b) ==> r is Ok,
        (forall|b: bool| cancel.ensures((), b) ==> b) && height > 0 ==> r matches Err(BitmapError::Canceled),
{
    let ghost w = width as int;
    let ghost h = height as int;
    let mut bounds: Option<TraceContentBounds> = None;
    let ghost mut y_of_min_x: int = 0;
    let ghost mut y_of_max_x: int = 0;
    let ghost mut x_of_min_y: int = 0;
    let ghost mut x_of_max_y: int = 0;
    let mut y: u32 = 0;
    while y < height
        invariant
            (forall|b: bool| cancel.ensures((), b) ==> b) ==> y == 0,
            w == width,
            h == height,
            rgba_ok(width, height, data@),
            cancel.requires(()),
            y <= height,
            match bounds {
                None => forall|px: int, py: int|
                    scanned(w, 0, y as int, px, py) ==> !#[trigger] black_at(data@, w, px, py),
                Some(b) => {
                    &&& b.min_x <= b.max_x < w
                    &&& b.min_y <= b.max_y < y
                    &&& forall|px: int, py: int|
                        scanned(w, 0, y as int, px, py) && #[trigger] black_at(data@, w, px, py)
                            ==> b.min_x <= px <= b.max_x && b.min_y <= py <= b.max_y
                    &&& 0 <= y_of_min_x < y && black_at(data@, w, b.min_x as int, y_of_min_x)
                    &&& 0 <= y_of_max_x < y && black_at(data@, w, b.max_x as int, y_of_max_x)
                    &&& 0 <= x_of_min_y < w && black_at(data@, w, x_of_min_y, b.min_y as int)
                    &&& 0 <= x_of_max_y < w && black_at(data@, w, x_of_max_y, b.max_y as int)
                },
            },
        decreases height - y,
    {
        match check_canceled(cancel) {
            Ok(()) => {},
            Err(e) => return Err(e),
        }
        let mut x: u32 = 0;
        while x < width
            invariant
                w == width,
                h == height,
                rgba_ok(width, height, data@),
                y < height,
                x <= width,
                match bounds {
                    None => forall|px: int, py: int|
                        scanned(w, x as int, y as int, px, py) ==> !#[trigger] black_at(
                            data@,
                            w,
                            px,
                            py,
                        ),
                    Some(b) => {
                        &&& b.min_x <= b.max_x < w
                        &&& b.min_y <= b.max_y <= y
                        &&& forall|px: int, py: int|
                            scanned(w, x as int, y as int, px, py) && #[trigger] black_at(
                                data@,
                                w,
                                px,
                                py,
                            ) ==> b.min_x <= px <= b.max_x && b.min_y <= py <= b.max_y
                        &&& 0 <= y_of_min_x <= y && black_at(data@, w, b.min_x as int, y_of_min_x)
                        &&& 0 <= y_of_max_x <= y && black_at(data@, w, b.max_x as int, y_of_max_x)
                        &&& 0 <= x_of_min_y < w && black_at(data@, w, x_of_min_y, b.min_y as int)
                        &&& 0 <= x_of_max_y < w && black_at(data@, w, x_of_max_y, b.max_y as int)
                    },
                },
            decreases width - x,
        {
            proof {
                lemma_pixel_index(w, h, x as int, y as int);
                assert((y as int) * w + (x as int) < data@.len() && 0 <= (y as int) * w) by (nonlinear_arith)
                    requires
                        0 <= (y as int) * w + (x as int) < w * h,
                        data@.len() == 4 * w * h,
                        0 <= x,
                        0 <= y,
                        0 <= w,
                ;
            }
            let dl: usize = data.len();
            let yy: usize = y as usize;
            let ww: usize = width as usize;
            let xx: usize = x as usize;
            assert(yy * ww <= (y as int) * w + (x as int));
            let row: usize = yy * ww;
            let idx: usize = row + xx;
            let black = pixel_black(data, idx);
            if black {
                match bounds {
                    None => {
                        bounds = Some(TraceContentBounds { min_x: x, min_y: y, max_x: x, max_y: y });
                        proof {
                            y_of_min_x = y as int;
                            y_of_max_x = y as int;
                            x_of_min_y = x as int;
                            x_of_max_y = x as int;
                        }
                    },
                    Some(b) => {
                        let mut nb = b;
                        if x < nb.min_x {
                            nb.min_x = x;
                            proof {
                                y_of_min_x = y as int;
                            }
                        }
                        if x > nb.max_x {
                            nb.max_x = x;
                            proof {
                                y_of_max_x = y as int;
                            }
                        }
                        if y > nb.max_y {
                            nb.max_y = y;
                            proof {
                                x_of_max_y = x as int;
                            }
                        }
                        bounds = Some(nb);
                    },
                }
            }
            x = x + 1;
        }
        y = y + 1;
    }
    proof {
        match bounds {
            None => {
                assert forall|px: int, py: int| inside(w, h, px, py) implies !#[trigger] black_at(
                    data@,
                    w,
                    px,
                    py,
                ) by {
                    assert(scanned(w, 0, y as int, px, py));
                }
            },
            Some(b) => {
                assert forall|px: int, py: int|
                    inside(w, h, px, py) && #[trigger] black_at(data@, w, px, py) implies b.min_x
                    <= px <= b.max_x && b.min_y <= py <= b.max_y by {
                    assert(scanned(w, 0, y as int, px, py));
                }
            },
        }
    }
    Ok(bounds)
}

/// `bm` is the trace bitmap of an image whose content box is `b`: the box
/// cut out with its rows in reverse order (the bitmap's row 0 is the
/// image's bottom content row), or a single white pixel for an image
/// with no black pixel.
pub open spec fn traced_from(
    bm: Bitmap,
    data: Seq<u8>,
    width: int,
    b: Option<TraceContentBounds>,
) -> bool {
    &&& bm.wf()
    &&& match b {
        None => bm.spec_width() == 1 && bm.spec_height() == 1 && !bm.pixel(0, 0),
        Some(b) => {
            &&& bm.spec_width() == b.max_x - b.min_x + 1
            &&& bm.spec_height() == b.max_y - b.min_y + 1
            &&& forall|x: int, y: int|
                0 <= x < bm.spec_width() && 0 <= y < bm.spec_height() ==> #[trigger] bm.pixel(
                    x,
                    y,
                ) == black_at(data, width, b.min_x + x, b.max_y - y)
        },
    }
}

/// Bit `(row, col)` of a row-major bit list `cols` wide.
pub open spec fn bit_at(bits: Seq<bool>, cols: int, row: int, col: int) -> bool {
    bits[row * cols + col]
}

proof fn lemma_grid_index(cols: int, rows: int, row: int, col: int)
    requires
        0 <= row < rows,
        0 <= col < cols,
    ensures
        0 <= row * cols + col < rows * cols,
        (row + 1) * cols == row * cols + cols,
{
    assert(0 <= row * cols + col < rows * cols) by (nonlinear_arith)
        requires
            0 <= row < rows,
            0 <= col < cols,
    ;
    assert((row + 1) * cols == row * cols + cols) by (nonlinear_arith);
}

/// The trace bitmap of an image: its content box, bottom row first, or a
/// single white pixel when the image has no black pixel. `cancel` is asked
/// before each row of the content scan and of the copy.
pub fn image_to_native_potrace_bitmap<F: Fn() -> bool>(
    width: u32,
    height: u32,
    data: &[u8],
    cancel: &F,
) -> (r: Result<Bitmap, BitmapError>)
    requires
        rgba_ok(width, height, data@),
        (width as int) * (height as int) <= i32::MAX,
        cancel.requires(()),
    ensures
        match r {
            Ok(bm) => exists|b: Option<TraceContentBounds>|
                #[trigger] is_content_box(data@, width as int, height as int, b) && traced_from(
                    bm,
                    data@,
                    width as int,
                    b,
                ),
            Err(e) => e == BitmapError::Canceled,
        },
        (forall|b: bool| cancel.ensures((), b) ==> !b) ==> r is Ok,
        (forall|b: bool| cancel.ensures((), b) ==> b) && height > 0 ==> r matches Err(BitmapError::Canceled),
{
    let ghost w = width as int;
    let ghost h = height as int;
    let bounds = match trace_content_bounds(width, height, data, cancel) {
        Ok(b) => b,
        Err(e) => return Err(e),
    };
    let b = match bounds {
        None => {
            let bits: Vec<bool> = vec![false];
            return match Bitmap::from_bits(1, 1, &bits) {
                Ok(bm) => {
                    assert(bm.pixel(0, 0) == bits@[0]);
                    assert(traced_from(bm, data@, w, bounds));
                    assert(is_content_box(data@, w, h, bounds));
                    Ok(bm)
                },
                Err(source) => Err(BitmapError::NativeTraceFailed { source }),
            };
        },
        Some(b) => b,
    };
    let bw: u32 = b.max_x - b.min_x + 1;
    let bh: u32 = b.max_y - b.min_y + 1;
    proof {
        assert((bw as int) * (bh as int) <= w * h) by (nonlinear_arith)
            requires
                0 < bw <= w,
                0 < bh <= h,
        ;
    }
    let mut bits: Vec<bool> = Vec::new();
    let mut row: u32 = 0;
    while row < bh
        invariant
            w == width,
            h == height,
            rgba_ok(width, height, data@),
            cancel.requires(()),
            b.min_x <= b.max_x < w,
            b.min_y <= b.max_y < h,
            bw == b.max_x - b.min_x + 1,
            bh == b.max_y - b.min_y + 1,
            (bw as int) * (bh as int) <= i32::MAX,
            row <= bh,
            bits@.len() == (row as int) * (bw as int),
            forall|rr: int, c: int|
                0 <= rr < row && 0 <= c < bw ==> #[trigger] bit_at(bits@, bw as int, rr, c)
                    == black_at(data@, w, b.min_x + c, b.max_y - rr),
        decreases bh - row,
    {
        match check_canceled(cancel) {
            Ok(()) => {},
            Err(e) => return Err(e),
        }
        let y: u32 = b.max_y - row;
        let mut col: u32 = 0;
        proof {
            lemma_grid_index(bw as int, bh as int, row as int, 0);
        }
        while col < bw
            invariant
                w == width,
                h == height,
                rgba_ok(width, height, data@),
                b.min_x <= b.max_x < w,
                b.min_y <= b.max_y < h,
                bw == b.max_x - b.min_x + 1,
                bh == b.max_y - b.min_y + 1,
                row < bh,
                y == b.max_y - row,
                col <= bw,
                bits@.len() == (row as int) * (bw as int) + col,
                forall|rr: int, c: int|
                    0 <= rr < row && 0 <= c < bw ==> #[trigger] bit_at(bits@, bw as int, rr, c)
                        == black_at(data@, w, b.min_x + c, b.max_y - rr),
                forall|c: int|
                    0 <= c < col ==> #[trigger] bit_at(bits@, bw as int, row as int, c)
                        == black_at(data@, w, b.min_x + c, y as int),
            decreases bw - col,
        {
            let x: u32 = b.min_x + col;
            proof {
                lemma_pixel_index(w, h, x as int, y as int);
                assert((y as int) * w + (x as int) < data@.len() && 0 <= (y as int) * w)
                    by (nonlinear_arith)
                    requires
                        0 <= (y as int) * w + (x as int) < w * h,
                        data@.len() == 4 * w * h,
                        0 <= x,
                        0 <= y,
                        0 <= w,
                ;
            }
            let dl: usize = data.len();
            let yy: usize = y as usize;
            let ww: usize = width as usize;
            let xx: usize = x as usize;
            assert(yy * ww <= (y as int) * w + (x as int));
            let line: usize = yy * ww;
            let idx: usize = line + xx;
            let black = pixel_black(data, idx);
            let ghost before = bits@;
            bits.push(black);
            proof {
                assert forall|rr: int, c: int|
                    0 <= rr < row && 0 <= c < bw implies #[trigger] bit_at(bits@, bw as int, rr, c)
                    == black_at(data@, w, b.min_x + c, b.max_y - rr) by {
                    lemma_grid_index(bw as int, row as int, rr, c);
                    assert(bit_at(before, bw as int, rr, c) == black_at(data@, w, b.min_x + c, b.max_y - rr));
                }
                assert forall|c: int|
                    0 <= c < col + 1 implies #[trigger] bit_at(bits@, bw as int, row as int, c)
                    == black_at(data@, w, b.min_x + c, y as int) by {
                    if c < col {
                        assert(bit_at(before, bw as int, row as int, c) == black_at(data@, w, b.min_x + c, y as int));
                    }
                }
            }
            col = col + 1;
        }
        proof {
            lemma_grid_index(bw as int, bh as int, row as int, 0);
            assert forall|rr: int, c: int|
                0 <= rr < row + 1 && 0 <= c < bw implies #[trigger] bit_at(bits@, bw as int, rr, c)
                == black_at(data@, w, b.min_x + c, b.max_y - rr) by {
                if rr == row {
                    assert(bit_at(bits@, bw as int, row as int, c) == black_at(data@, w, b.min_x + c, y as int));
                }
            }
        }
        row = row + 1;
    }
    proof {
        assert(bw <= i32::MAX && bh <= i32::MAX) by (nonlinear_arith)
            requires
                (bw as int) * (bh as int) <= i32::MAX,
                bw >= 1,
                bh >= 1,
        ;
    }
    let bwi: i32 = bw as i32;
    let bhi: i32 = bh as i32;
    assert(bits@.len() == (bwi as int) * (bhi as int)) by (nonlinear_arith)
        requires
            bits@.len() == (row as int) * (bw as int),
            row == bh,
            bwi == bw,
            bhi == bh,
    ;
    match Bitmap::from_bits(bwi, bhi, &bits) {
        Ok(bm) => {
            proof {
                assert forall|x: int, y: int|
                    0 <= x < bm.spec_width() && 0 <= y < bm.spec_height() implies #[trigger] bm.pixel(
                    x,
                    y,
                ) == black_at(data@, w, b.min_x + x, b.max_y - y) by {
                    assert(bit_at(bits@, bw as int, y, x) == black_at(data@, w, b.min_x + x, b.max_y - y));
                }
                assert(traced_from(bm, data@, w, bounds));
                assert(is_content_box(data@, w, h, bounds));
            }
            Ok(bm)
        },
        Err(source) => Err(BitmapError::NativeTraceFailed { source }),
    }
}

/// What the `image` crate decodes from the bytes of the file `path`, its
/// format chosen from the path's extension: the width, height and RGBA8
/// pixels, or the crate's error message.
pub uninterp spec fn decoded_rgba(bytes: Seq<u8>, path: Seq<char>) -> Result<
    (u32, u32, Seq<u8>),
    Seq<char>,
>;

/// The path whose extension picks the image format. `image::open` takes an
/// empty extension (a name ending in a bare dot) for none, so such a path
/// stands for one without any extension: the empty path.
pub open spec fn format_path(p: Seq<char>) -> Seq<char> {
    if path_extension(p) == Some(Seq::<char>::empty()) {
        Seq::<char>::empty()
    } else {
        p
    }
}

/// Decodes image bytes as `image::open` decodes a file: the format comes
/// from `image::ImageFormat::from_path` (an unknown or missing extension is
/// the crate's unsupported-format error, with the message `image::open`
/// gives for it), the bytes go through
/// `image::ImageReader::with_format(..).decode()`, and the image through
/// `DynamicImage::to_rgba8`. Claims the result is the named decoding of the
/// arguments, and that the pixel buffer holds exactly four bytes per pixel,
/// as the decoder allocates it.
#[verifier::external_body]
fn decode_rgba(path: &str, bytes: &[u8]) -> (r: Result<(u32, u32, Vec<u8>), String>)
    ensures
        match r {
            Ok((w, h, d)) => decoded_rgba(bytes@, path@) == Ok::<(u32, u32, Seq<u8>), Seq<char>>(
                (w, h, d@),
            ) && rgba_ok(w, h, d@),
            Err(m) => decoded_rgba(bytes@, path@) == Err::<(u32, u32, Seq<u8>), Seq<char>>(m@),
        },
{
    let format = match image::ImageFormat::from_path(path) {
        Ok(format) => format,
        Err(err) => return Err(err.to_string()),
    };
    match image::ImageReader::with_format(std::io::Cursor::new(bytes), format).decode() {
        Ok(image) => {
            let rgba = image.to_rgba8();
            Ok((rgba.width(), rgba.height(), rgba.into_raw()))
        },
        Err(err) => Err(err.to_string()),
    }
}

/// Decodes the bytes of the bitmap file `path` to RGBA pixels.
pub fn decode_bitmap(path: &str, bytes: &[u8]) -> (r: Result<(u32, u32, Vec<u8>), BitmapError>)
    ensures
        match decoded_rgba(bytes@, format_path(path@)) {
            Ok((w, h, d)) => r matches Ok((rw, rh, rd)) && rw == w && rh == h && rd@ == d
                && rgba_ok(rw, rh, rd@),
            Err(m) => r matches Err(BitmapError::Decode { path: p, source: s }) && p@ == path@
                && s@ == m,
        },
{
    let ext = extension_of(path);
    let empty_extension = match &ext {
        Some(e) => chars_of(e.as_str()).len() == 0,
        None => false,
    };
    proof {
        if let Some(e) = ext {
            if empty_extension {
                assert(e@ =~= Seq::<char>::empty());
            }
        }
    }
    let format_from: &str = if empty_extension {
        ""
    } else {
        path
    };
    proof {
        reveal_strlit("");
        assert(""@ =~= Seq::<char>::empty());
        assert(format_from@ == format_path(path@));
    }
    match decode_rgba(format_from, bytes) {
        Ok(image) => Ok(image),
        Err(message) => Err(BitmapError::Decode { path: path.to_owned(), source: message }),
    }
}

/// The whole-number trace settings of an image job: the turn policy named
/// by `bmp_turnp`, `minority` when it is missing, and the smallest traced
/// area `bmp_turds`, 2 when it is missing or not an `i32`.
pub open spec fn trace_settings_of(settings: LegacySettings) -> (TurnPolicy, i32) {
    (
        turn_policy_of(
            match last_value(settings@, "bmp_turnp"@) {
                Some(v) => v,
                None => "minority"@,
            },
        ),
        match last_value(settings@, "bmp_turds"@) {
            Some(v) => match parse_i32(v) {
                Some(n) => n,
                None => 2,
            },
            None => 2,
        },
    )
}

/// The turn policy and the smallest traced area an image job asks for.
pub fn native_trace_settings(settings: &LegacySettings) -> (r: (TurnPolicy, i32))
    ensures
        r == trace_settings_of(*settings),
{
    let policy = TurnPolicy::parse(
        match settings.get_last("bmp_turnp") {
            Some(v) => v,
            None => "minority",
        },
    );
    let turd = match settings.get_last("bmp_turds") {
        Some(v) => {
            let chars = chars_of(v);
            match parse_i32_chars(chars.as_slice()) {
                Some(n) => n,
                None => 2,
            }
        },
        None => 2,
    };
    (policy, turd)
}

} // verus!
