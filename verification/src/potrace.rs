//! The integer core of the bitmap tracer: a packed bitmap, the turn
//! policies and the scan helpers of the path decomposition, after Potrace
//! 1.16 by Peter Selinger.

use vstd::prelude::*;
use crate::text::{
    chars_eq, chars_of, decimal, lower, lower_chars, pad_left, push_decimal, push_padded_left,
    string_from_chars,
};

verus! {

/// Bits per storage word.
pub const WORD_BITS: i32 = 64;

/// A word with every bit set.
pub const ALL_BITS: u64 = 0xffff_ffff_ffff_ffff;

/// Why a bitmap could not be built.
#[derive(Debug, Clone, Copy, PartialEq, Eq)]
pub enum Error {
    InvalidBitmapDimensions,
    InvalidBitmapData,
}

/// How the boundary walk resolves an ambiguous corner.
#[derive(Debug, Clone, Copy, PartialEq, Eq)]
pub enum TurnPolicy {
    Black,
    White,
    Left,
    Right,
    Minority,
    Majority,
    Random,
}

/// The turn policy a name selects: the Potrace names, ignoring ASCII case;
/// anything else selects `Minority`.
pub open spec fn turn_policy_of(value: Seq<char>) -> TurnPolicy {
    let v = lower(value);
    if v == "black"@ {
        TurnPolicy::Black
    } else if v == "white"@ {
        TurnPolicy::White
    } else if v == "left"@ {
        TurnPolicy::Left
    } else if v == "right"@ {
        TurnPolicy::Right
    } else if v == "majority"@ {
        TurnPolicy::Majority
    } else if v == "random"@ {
        TurnPolicy::Random
    } else {
        TurnPolicy::Minority
    }
}

impl Default for TurnPolicy {
    /// The Potrace default.
    fn default() -> (r: Self)
        ensures
            r == TurnPolicy::Minority,
    {
        TurnPolicy::Minority
    }
}

impl TurnPolicy {
    /// Reads a policy name.
    pub fn parse(value: &str) -> (r: Self)
        ensures
            r == turn_policy_of(value@),
    {
        let raw = chars_of(value);
        let v = lower_chars(&raw);
        if chars_eq(&v, &chars_of("black")) {
            TurnPolicy::Black
        } else if chars_eq(&v, &chars_of("white")) {
            TurnPolicy::White
        } else if chars_eq(&v, &chars_of("left")) {
            TurnPolicy::Left
        } else if chars_eq(&v, &chars_of("right")) {
            TurnPolicy::Right
        } else if chars_eq(&v, &chars_of("majority")) {
            TurnPolicy::Majority
        } else if chars_eq(&v, &chars_of("random")) {
            TurnPolicy::Random
        } else {
            TurnPolicy::Minority
        }
    }
}

/// Storage words per bitmap row.
pub open spec fn words_per_row(w: int) -> int {
    if w <= 0 {
        0
    } else {
        (w - 1) / 64 + 1
    }
}

/// Bit `k` of a word, counting from the most significant bit.
pub open spec fn word_bit(word: u64, k: u64) -> bool {
    (word >> ((63u64 - k) as u64)) & 1u64 == 1u64
}

/// The mask of bit `k`, counting from the most significant bit.
pub open spec fn bit_mask(k: u64) -> u64 {
    1u64 << ((63u64 - k) as u64)
}

proof fn lemma_bit_or(w: u64, k: u64, j: u64)
    requires
        k < 64,
        j < 64,
    ensures
        word_bit(w | bit_mask(k), j) == (j == k || word_bit(w, j)),
{
    assert(word_bit(w | bit_mask(k), j) == (j == k || word_bit(w, j))) by (bit_vector)
        requires
            k < 64,
            j < 64,
    ;
}

proof fn lemma_bit_clear(w: u64, k: u64, j: u64)
    requires
        k < 64,
        j < 64,
    ensures
        word_bit(w & !bit_mask(k), j) == (j != k && word_bit(w, j)),
{
    assert(word_bit(w & !bit_mask(k), j) == (j != k && word_bit(w, j))) by (bit_vector)
        requires
            k < 64,
            j < 64,
    ;
}

proof fn lemma_bit_test(w: u64, k: u64)
    requires
        k < 64,
    ensures
        ((w & bit_mask(k)) != 0) == word_bit(w, k),
{
    assert(((w & bit_mask(k)) != 0) == word_bit(w, k)) by (bit_vector)
        requires
            k < 64,
    ;
}

proof fn lemma_bit_keep_high(w: u64, extra: u64, j: u64)
    requires
        1 <= extra < 64,
        j < 64,
    ensures
        word_bit(w & (0xffff_ffff_ffff_ffffu64 << ((64u64 - extra) as u64)), j) == (j < extra && word_bit(w, j)),
{
    assert(word_bit(w & (0xffff_ffff_ffff_ffffu64 << ((64u64 - extra) as u64)), j) == (j < extra && word_bit(
        w,
        j,
    ))) by (bit_vector)
        requires
            1 <= extra < 64,
            j < 64,
    ;
}

proof fn lemma_bit_flip_all(w: u64, j: u64)
    requires
        j < 64,
    ensures
        word_bit(w ^ 0xffff_ffff_ffff_ffffu64, j) == !word_bit(w, j),
{
    assert(word_bit(w ^ 0xffff_ffff_ffff_ffffu64, j) == !word_bit(w, j)) by (bit_vector)
        requires
            j < 64,
    ;
}

proof fn lemma_bit_flip_high(w: u64, lo: u64, j: u64)
    requires
        1 <= lo < 64,
        j < 64,
    ensures
        word_bit(w ^ (0xffff_ffff_ffff_ffffu64 << ((64u64 - lo) as u64)), j) == if j < lo {
            !word_bit(w, j)
        } else {
            word_bit(w, j)
        },
{
    assert(word_bit(w ^ (0xffff_ffff_ffff_ffffu64 << ((64u64 - lo) as u64)), j) == if j < lo {
        !word_bit(w, j)
    } else {
        word_bit(w, j)
    }) by (bit_vector)
        requires
            1 <= lo < 64,
            j < 64,
    ;
}

proof fn lemma_zero_word(w: u64, j: u64)
    requires
        j < 64,
        w == 0,
    ensures
        !word_bit(w, j),
{
    assert(!word_bit(w, j)) by (bit_vector)
        requires
            j < 64,
            w == 0,
    ;
}

proof fn lemma_nonzero_word(w: u64)
    requires
        w != 0,
    ensures
        exists|j: u64| j < 64 && word_bit(w, j),
{
    vstd::std_specs::bits::axiom_u64_leading_zeros(w);
    let lz = vstd::std_specs::bits::u64_leading_zeros(w) as u64;
    assert(lz < 64);
    let v: u64 = w >> ((63 - lz) as u64);
    assert(v & 1u64 != 0u64);
    assert(v & 1u64 == 1u64) by (bit_vector)
        requires
            v & 1u64 != 0u64,
    ;
    assert(word_bit(w, lz));
}

/// The mask of the bit that holds column `x`.
pub fn word_mask(x: i32) -> (r: u64)
    ensures
        x >= 0 ==> r == bit_mask((x % 64) as u64),
{
    let low = x & (WORD_BITS - 1);
    assert(0 <= x & 63i32 < 64) by (bit_vector);
    let k = low as u64;
    proof {
        if x >= 0 {
            assert(x & 63i32 == x % 64) by (bit_vector)
                requires
                    x >= 0,
            ;
        }
    }
    1u64 << (63 - k)
}

proof fn lemma_index_bounds(x: int, y: int, dy: int, h: int)
    requires
        0 <= x < 64 * dy,
        0 <= y < h,
        dy >= 1,
    ensures
        0 <= y * dy + x / 64 < dy * h,
        0 <= x / 64 < dy,
{
    assert(x / 64 < dy);
    assert(0 <= y * dy + x / 64 < dy * h) by (nonlinear_arith)
        requires
            0 <= x / 64 < dy,
            0 <= y < h,
            dy >= 1,
    ;
}

proof fn lemma_index_injective(a: int, y: int, b: int, z: int, dy: int)
    requires
        0 <= a < dy,
        0 <= b < dy,
        0 <= y,
        0 <= z,
        y * dy + a == z * dy + b,
    ensures
        y == z,
        a == b,
{
    assert(y == z && a == b) by (nonlinear_arith)
        requires
            0 <= a < dy,
            0 <= b < dy,
            0 <= y,
            0 <= z,
            y * dy + a == z * dy + b,
    ;
}

/// A packed black-and-white bitmap; row `y` holds the pixels with that
/// vertical coordinate, each row starting on a fresh word.
#[derive(Debug, Clone, PartialEq, Eq)]
pub struct Bitmap {
    width: i32,
    height: i32,
    dy: i32,
    map: Vec<u64>,
}

impl Bitmap {
    /// The width in pixels.
    pub closed spec fn spec_width(&self) -> int {
        self.width as int
    }

    /// The height in pixels.
    pub closed spec fn spec_height(&self) -> int {
        self.height as int
    }

    /// The word that holds pixel `(x, y)`.
    closed spec fn word_at(&self, x: int, y: int) -> u64 {
        self.map@[y * self.dy + x / 64]
    }

    /// Whether pixel `(x, y)` is set; pixels outside the bitmap are unset.
    pub closed spec fn pixel(&self, x: int, y: int) -> bool {
        &&& 0 <= x < self.width
        &&& 0 <= y < self.height
        &&& word_bit(self.word_at(x, y), (x % 64) as u64)
    }

    /// The layout is consistent and no bit beyond the width is set.
    pub closed spec fn wf(&self) -> bool {
        &&& self.width >= 0
        &&& self.height >= 0
        &&& self.dy == words_per_row(self.width as int)
        &&& self.dy * self.height <= i32::MAX
        &&& self.map@.len() == self.dy * self.height
        &&& forall|x: int, y: int|
            self.width <= x < 64 * self.dy && 0 <= y < self.height ==> !word_bit(
                #[trigger] self.word_at(x, y),
                (x % 64) as u64,
            )
    }

    /// The layout is consistent: each row starts on a fresh word, and the
    /// words cover every row; bits past the width may still be set.
    pub closed spec fn layout_ok(&self) -> bool {
        &&& self.width >= 0
        &&& self.height >= 0
        &&& self.dy == words_per_row(self.width as int)
        &&& self.dy * self.height <= i32::MAX
        &&& self.map@.len() == self.dy * self.height
    }

    /// No bit past the width is set in the rows before `rows`.
    closed spec fn clear_below(&self, rows: int) -> bool {
        forall|x: int, y: int|
            self.width <= x < 64 * self.dy && 0 <= y < rows ==> !word_bit(
                #[trigger] self.word_at(x, y),
                (x % 64) as u64,
            )
    }

    /// A well-formed bitmap has a consistent layout.
    pub proof fn lemma_wf_layout(&self)
        requires
            self.wf(),
        ensures
            self.layout_ok(),
    {
    }

    /// An empty bitmap.
    pub fn new(width: i32, height: i32) -> (r: Result<Self, Error>)
        requires
            width < 0 || height < 0 || words_per_row(width as int) * height <= i32::MAX,
        ensures
            match r {
                Ok(b) => {
                    &&& width >= 0 && height >= 0
                    &&& b.wf()
                    &&& b.spec_width() == width
                    &&& b.spec_height() == height
                    &&& forall|x: int, y: int| !b.pixel(x, y)
                },
                Err(e) => (width < 0 || height < 0) && e == Error::InvalidBitmapDimensions,
            },
    {
        if width < 0 || height < 0 {
            return Err(Error::InvalidBitmapDimensions);
        }
        let dy = if width == 0 {
            0
        } else {
            (width - 1) / WORD_BITS + 1
        };
        assert(dy * height <= i32::MAX);
        let map_len = (dy * height) as usize;
        let mut map: Vec<u64> = Vec::new();
        let mut i: usize = 0;
        while i < map_len
            invariant
                i <= map_len,
                map@.len() == i,
                forall|j: int| 0 <= j < i ==> map@[j] == 0,
            decreases map_len - i,
        {
            map.push(0);
            i = i + 1;
        }
        let b = Bitmap { width, height, dy, map };
        assert forall|x: int, y: int|
            b.width <= x < 64 * b.dy && 0 <= y < b.height implies !word_bit(
            #[trigger] b.word_at(x, y),
            (x % 64) as u64,
        ) by {
            lemma_index_bounds(x, y, dy as int, height as int);
            lemma_zero_word(b.word_at(x, y), (x % 64) as u64);
        }
        assert forall|x: int, y: int| !b.pixel(x, y) by {
            if 0 <= x < width && 0 <= y < height {
                lemma_index_bounds(x, y, dy as int, height as int);
                lemma_zero_word(b.word_at(x, y), (x % 64) as u64);
            }
        }
        Ok(b)
    }

    /// The width in pixels.
    pub fn width(&self) -> (r: i32)
        ensures
            r == self.spec_width(),
    {
        self.width
    }

    /// The height in pixels.
    pub fn height(&self) -> (r: i32)
        ensures
            r == self.spec_height(),
    {
        self.height
    }

    /// Whether `(x, y)` lies inside the bitmap.
    fn safe(&self, x: i32, y: i32) -> (r: bool)
        ensures
            r == (0 <= x < self.spec_width() && 0 <= y < self.spec_height()),
    {
        x >= 0 && x < self.width && y >= 0 && y < self.height
    }

    /// The index of the word that holds column `x` of row `y`.
    fn word_index(&self, x: i32, y: i32) -> (r: usize)
        requires
            self.layout_ok(),
            0 <= x < 64 * words_per_row(self.spec_width()),
            0 <= y < self.spec_height(),
        ensures
            r == y * self.dy + x / 64,
            r < self.map@.len(),
    {
        proof {
            lemma_index_bounds(x as int, y as int, self.dy as int, self.height as int);
        }
        (y * self.dy + x / WORD_BITS) as usize
    }

    /// The pixel at `(x, y)`, which must lie inside the bitmap.
    fn get_unchecked(&self, x: i32, y: i32) -> (r: bool)
        requires
            self.wf(),
            0 <= x < self.spec_width(),
            0 <= y < self.spec_height(),
        ensures
            r == self.pixel(x as int, y as int),
    {
        let index = self.word_index(x, y);
        let m = word_mask(x);
        proof {
            lemma_bit_test(self.map@[index as int], (x % 64) as u64);
        }
        (self.map[index] & m) != 0
    }

    /// A set pixel lies inside the bitmap.
    pub proof fn lemma_pixel_inside(&self, x: int, y: int)
        requires
            self.pixel(x, y),
        ensures
            0 <= x < self.spec_width(),
            0 <= y < self.spec_height(),
    {
    }

    /// A well-formed bitmap has non-negative dimensions.
    pub proof fn lemma_wf_dims(&self)
        requires
            self.wf(),
        ensures
            0 <= self.spec_width(),
            0 <= self.spec_height(),
    {
    }

    /// A copy of this bitmap.
    pub fn duplicate(&self) -> (r: Bitmap)
        requires
            self.wf(),
        ensures
            r.wf(),
            r.spec_width() == self.spec_width(),
            r.spec_height() == self.spec_height(),
            forall|x: int, y: int| #[trigger] r.pixel(x, y) == self.pixel(x, y),
    {
        let mut map: Vec<u64> = Vec::new();
        let mut i: usize = 0;
        while i < self.map.len()
            invariant
                i <= self.map.len(),
                map@ == self.map@.take(i as int),
            decreases self.map.len() - i,
        {
            map.push(self.map[i]);
            assert(self.map@.take(i + 1) =~= self.map@.take(i as int).push(self.map@[i as int]));
            i = i + 1;
        }
        assert(self.map@.take(i as int) =~= self.map@);
        let r = Bitmap { width: self.width, height: self.height, dy: self.dy, map };
        assert forall|x: int, y: int| #[trigger] r.pixel(x, y) == self.pixel(x, y) by {
            if 0 <= x < self.width && 0 <= y < self.height {
                assert(r.word_at(x, y) == self.word_at(x, y));
            }
        }
        assert forall|x: int, y: int|
            r.width <= x < 64 * r.dy && 0 <= y < r.height implies !word_bit(
            #[trigger] r.word_at(x, y),
            (x % 64) as u64,
        ) by {
            assert(r.word_at(x, y) == self.word_at(x, y));
        }
        r
    }

    /// The pixel at `(x, y)`; pixels outside the bitmap read as unset.
    pub fn get(&self, x: i32, y: i32) -> (r: bool)
        requires
            self.wf(),
        ensures
            r == self.pixel(x as int, y as int),
    {
        if !self.safe(x, y) {
            return false;
        }
        self.get_unchecked(x, y)
    }

    /// Sets or clears the pixel at `(x, y)`; outside the bitmap nothing changes.
    pub fn set(&mut self, x: i32, y: i32, value: bool)
        requires
            old(self).wf(),
        ensures
            final(self).wf(),
            final(self).spec_width() == old(self).spec_width(),
            final(self).spec_height() == old(self).spec_height(),
            forall|px: int, py: int|
                #[trigger] final(self).pixel(px, py) == if px == x && py == y && 0 <= x
                    < old(self).spec_width() && 0 <= y < old(self).spec_height() {
                    value
                } else {
                    old(self).pixel(px, py)
                },
            !(0 <= x < old(self).spec_width() && 0 <= y < old(self).spec_height()) ==> *final(self)
                == *old(self),
    {
        if !self.safe(x, y) {
            return ;
        }
        let index = self.word_index(x, y);
        let mask = word_mask(x);
        let old_word = self.map[index];
        let new_word = if value {
            old_word | mask
        } else {
            old_word & !mask
        };
        let ghost old_self = *self;
        self.map.set(index, new_word);
        proof {
            let k = (x % 64) as u64;
            let dy = self.dy as int;
            assert forall|px: int, py: int|
                self.width <= px < 64 * self.dy && 0 <= py < self.height implies !word_bit(
                #[trigger] self.word_at(px, py),
                (px % 64) as u64,
            ) by {
                lemma_index_bounds(px, py, dy, self.height as int);
                lemma_index_bounds(x as int, y as int, dy, self.height as int);
                if py * dy + px / 64 == index {
                    lemma_index_injective(px / 64, py, x / 64, y as int, dy);
                    assert(px % 64 != x % 64);
                    assert(old_self.word_at(px, py) == old_word);
                    if value {
                        lemma_bit_or(old_word, k, (px % 64) as u64);
                    } else {
                        lemma_bit_clear(old_word, k, (px % 64) as u64);
                    }
                } else {
                    assert(self.word_at(px, py) == old_self.word_at(px, py));
                }
            }
            assert forall|px: int, py: int| #[trigger] self.pixel(px, py) == if px == x && py == y {
                value
            } else {
                old_self.pixel(px, py)
            } by {
                if 0 <= px < self.width && 0 <= py < self.height {
                    lemma_index_bounds(px, py, dy, self.height as int);
                    lemma_index_bounds(x as int, y as int, dy, self.height as int);
                    if py * dy + px / 64 == index {
                        lemma_index_injective(px / 64, py, x / 64, y as int, dy);
                        assert(old_self.word_at(px, py) == old_word);
                        if value {
                            lemma_bit_or(old_word, k, (px % 64) as u64);
                        } else {
                            lemma_bit_clear(old_word, k, (px % 64) as u64);
                        }
                    } else {
                        assert(self.word_at(px, py) == old_self.word_at(px, py));
                    }
                }
            }
        }
    }
}


/// `x & !63`: the first column of the word that holds column `x`.
pub open spec fn align_down(x: i32) -> int {
    (x & !63i32) as int
}

pub proof fn lemma_align_down(x: i32)
    ensures
        x >= 0 ==> align_down(x) >= 0 && align_down(x) % 64 == 0 && align_down(x) <= x,
        x < 0 ==> align_down(x) < 0,
{
    assert(x >= 0 ==> (x & !63i32) >= 0 && (x & !63i32) % 64 == 0 && (x & !63i32) <= x) by (bit_vector);
    assert(x < 0 ==> (x & !63i32) < 0) by (bit_vector);
}

proof fn lemma_div_index(idx: int, w: int, h: int)
    requires
        0 <= idx,
        w >= 1,
        h >= 0,
    ensures
        idx == (idx / w) * w + idx % w,
        0 <= idx % w < w,
        (idx / w >= h) == (idx >= w * h),
{
    assert(idx == (idx / w) * w + idx % w && 0 <= idx % w < w && (idx / w >= h) == (idx >= w
        * h)) by (nonlinear_arith)
        requires
            0 <= idx,
            w >= 1,
            h >= 0,
    ;
}

impl Bitmap {
    /// A bitmap of `width * height` pixels read row by row from `bits`.
    pub fn from_bits(width: i32, height: i32, bits: &[bool]) -> (r: Result<Self, Error>)
        requires
            width < 0 || height < 0 || (width as int) * (height as int) <= i32::MAX,
        ensures
            match r {
                Ok(b) => {
                    &&& width >= 0 && height >= 0
                    &&& bits.len() == width * height
                    &&& b.wf()
                    &&& b.spec_width() == width
                    &&& b.spec_height() == height
                    &&& forall|x: int, y: int|
                        0 <= x < width && 0 <= y < height ==> #[trigger] b.pixel(x, y) == bits@[y
                            * width + x]
                },
                Err(e) => if width < 0 || height < 0 {
                    e == Error::InvalidBitmapDimensions
                } else {
                    e == Error::InvalidBitmapData && bits.len() != width * height
                },
            },
    {
        if width < 0 || height < 0 {
            return Err(Error::InvalidBitmapDimensions);
        }
        proof {
            if width > 0 {
                assert(words_per_row(width as int) <= width);
                assert(words_per_row(width as int) * height <= (width as int) * (height as int))
                    by (nonlinear_arith)
                    requires
                        words_per_row(width as int) <= width,
                        height >= 0,
                ;
            }
        }
        let mut bitmap = match Self::new(width, height) {
            Ok(b) => b,
            Err(e) => return Err(e),
        };
        if width == 0 || height == 0 {
            if bits.len() > 0 {
                return Err(Error::InvalidBitmapData);
            }
            return Ok(bitmap);
        }
        let total: usize = (width * height) as usize;
        let mut index: usize = 0;
        while index < bits.len()
            invariant
                width >= 1,
                height >= 1,
                total == width * height,
                (width as int) * (height as int) <= i32::MAX,
                index <= total,
                index <= bits.len(),
                bitmap.wf(),
                bitmap.spec_width() == width,
                bitmap.spec_height() == height,
                forall|px: int, py: int|
                    0 <= px < width && 0 <= py < height ==> #[trigger] bitmap.pixel(px, py) == (py
                        * width + px < index && bits@[py * width + px]),
            decreases bits.len() - index,
        {
            proof {
                lemma_div_index(index as int, width as int, height as int);
            }
            assert(index <= i32::MAX);
            let ii = index as i32;
            assert(ii as int == index as int);
            let x = ii % width;
            let y = ii / width;
            assert(x as int == index as int % width as int);
            assert(y as int == index as int / width as int);
            if y >= height {
                return Err(Error::InvalidBitmapData);
            }
            assert(index < total);
            let ghost before = bitmap;
            if bits[index] {
                bitmap.set(x, y, true);
            }
            proof {
                assert forall|px: int, py: int|
                    0 <= px < width && 0 <= py < height implies #[trigger] bitmap.pixel(px, py) == (
                py * width + px < index + 1 && bits@[py * width + px]) by {
                    if py * width + px == index {
                        lemma_index_injective(px, py, x as int, y as int, width as int);
                    }
                    if px == x && py == y {
                        assert(py * width + px == index);
                    }
                }
            }
            index = index + 1;
        }
        if index != total {
            return Err(Error::InvalidBitmapData);
        }
        proof {
            assert forall|px: int, py: int|
                0 <= px < width && 0 <= py < height implies #[trigger] bitmap.pixel(px, py) == bits@[py * width + px] by {
                assert(py * width + px < width * height) by (nonlinear_arith)
                    requires
                        0 <= px < width,
                        0 <= py < height,
                ;
                assert(bitmap.pixel(px, py) == (py * width + px < index && bits@[py * width + px]));
            }
        }
        Ok(bitmap)
    }

    /// Clears the storage bits past the last column of every row.
    pub(crate) fn clear_excess(&mut self)
        requires
            old(self).layout_ok(),
        ensures
            final(self).wf(),
            final(self).spec_width() == old(self).spec_width(),
            final(self).spec_height() == old(self).spec_height(),
            forall|x: int, y: int| #[trigger] final(self).pixel(x, y) == old(self).pixel(x, y),
    {
        let extra = self.width % WORD_BITS;
        if extra == 0 || self.width == 0 {
            proof {
                assert forall|px: int, py: int|
                    self.width <= px < 64 * self.dy && 0 <= py < self.height implies !word_bit(
                    #[trigger] self.word_at(px, py),
                    (px % 64) as u64,
                ) by {
                    assert(64 * self.dy <= self.width) by (nonlinear_arith)
                        requires
                            self.dy == words_per_row(self.width as int),
                            self.width % 64 == 0 || self.width == 0,
                            self.width >= 0,
                    ;
                }
            }
            return ;
        }
        let mask = ALL_BITS << ((WORD_BITS - extra) as u64);
        let ghost orig = *self;
        let mut y: i32 = 0;
        while y < self.height
            invariant
                0 <= y <= self.height,
                self.layout_ok(),
                self.clear_below(y as int),
                self.width == orig.width,
                self.height == orig.height,
                self.dy == orig.dy,
                1 <= extra < 64,
                extra == self.width % 64,
                mask == 0xffff_ffff_ffff_ffffu64 << ((64u64 - extra as u64) as u64),
                forall|px: int, py: int| #[trigger] self.pixel(px, py) == orig.pixel(px, py),
            decreases self.height - y,
        {
            assert(self.width < 64 * self.dy);
            let index = self.word_index(self.width, y);
            let old_word = self.map[index];
            let ghost before = *self;
            self.map.set(index, old_word & mask);
            proof {
                let dy = self.dy as int;
                let w = self.width as int;
                assert(w / 64 == dy - 1);
                assert forall|px: int, py: int|
                    0 <= px < 64 * self.dy && 0 <= py < self.height implies #[trigger] self.word_at(
                    px,
                    py,
                ) == if py == y && px / 64 == dy - 1 {
                    old_word & mask
                } else {
                    before.word_at(px, py)
                } by {
                    lemma_index_bounds(px, py, dy, self.height as int);
                    if py * dy + px / 64 == index {
                        lemma_index_injective(px / 64, py, w / 64, y as int, dy);
                    }
                    if py == y && px / 64 == dy - 1 {
                        assert(py * dy + px / 64 == index);
                    }
                }
                assert forall|px: int, py: int|
                    self.width <= px < 64 * self.dy && 0 <= py < y + 1 implies !word_bit(
                    #[trigger] self.word_at(px, py),
                    (px % 64) as u64,
                ) by {
                    if py < y {
                        assert(before.clear_below(y as int));
                        assert(!word_bit(before.word_at(px, py), (px % 64) as u64));
                    }
                    if py == y && px / 64 == dy - 1 {
                        lemma_bit_keep_high(old_word, extra as u64, (px % 64) as u64);
                    }
                }
                assert forall|px: int, py: int| #[trigger] self.pixel(px, py) == orig.pixel(px, py) by {
                    assert(before.pixel(px, py) == orig.pixel(px, py));
                    if 0 <= px < self.width && 0 <= py < self.height {
                        assert(px < 64 * self.dy);
                        if py == y && px / 64 == dy - 1 {
                            assert(px % 64 < extra);
                            lemma_bit_keep_high(old_word, extra as u64, (px % 64) as u64);
                            assert(before.word_at(px, py) == old_word);
                        } else {
                            assert(self.word_at(px, py) == before.word_at(px, py));
                        }
                    }
                }
            }
            y = y + 1;
        }
    }

    /// The first set pixel of row `y` at or after the start of the word
    /// that holds column `x0`.
    #[verifier::spinoff_prover]
    #[verifier::rlimit(30)]
    fn scanline_has_bits_from(&self, x0: i32, y: i32) -> (r: Option<i32>)
        requires
            self.wf(),
            0 <= y < self.spec_height(),
        ensures
            match r {
                Some(fx) => {
                    &&& 0 <= align_down(x0) <= fx < self.spec_width()
                    &&& self.pixel(fx as int, y as int)
                    &&& forall|px: int| align_down(x0) <= px < fx ==> !#[trigger] self.pixel(px, y as int)
                },
                None => align_down(x0) < 0 || forall|px: int|
                    align_down(x0) <= px ==> !#[trigger] self.pixel(px, y as int),
            },
    {
        proof {
            lemma_align_down(x0);
        }
        let start = x0 & !(WORD_BITS - 1);
        assert(start == align_down(x0));
        if start < 0 {
            return None;
        }
        let mut x = start;
        while x < self.width
            invariant
                self.wf(),
                0 <= y < self.spec_height(),
                0 <= start <= x,
                start == align_down(x0),
                x % 64 == 0,
                forall|px: int| start <= px < x ==> !#[trigger] self.pixel(px, y as int),
            decreases self.width - x,
        {
            let index = self.word_index(x, y);
            let word = self.map[index];
            if word != 0 {
                proof {
                    lemma_nonzero_word(word);
                }
                let ghost j = choose|j: u64| j < 64 && word_bit(word, j);
                proof {
                    assert(self.word_at(x + j, y as int) == word);
                    assert((x + j) % 64 == j);
                    if x + j >= self.width {
                        assert(!word_bit(self.word_at(x + j, y as int), ((x + j) % 64) as u64));
                    }
                }
                let mut cur = x;
                while !self.get(cur, y)
                    invariant
                        self.wf(),
                        0 <= y < self.spec_height(),
                        x <= cur <= x + j,
                        x + j < self.spec_width(),
                        self.pixel(x + j, y as int),
                        forall|px: int| start <= px < cur ==> !#[trigger] self.pixel(px, y as int),
                    decreases x + j - cur,
                {
                    cur = cur + 1;
                }
                return Some(cur);
            }
            proof {
                assert forall|px: int| x <= px < x + 64 implies !#[trigger] self.pixel(px, y as int) by {
                    if 0 <= px < self.width {
                        assert(self.word_at(px, y as int) == word);
                        lemma_zero_word(word, (px % 64) as u64);
                    }
                }
            }
            if x >= self.width - WORD_BITS {
                return None;
            }
            x = x + WORD_BITS;
        }
        None
    }
}

/// `(fx, fy)` is the first set pixel of `bm` in scan order from `(x, y)`:
/// the rest of row `y` from the word holding column `x`, then whole rows
/// below it in turn.
pub open spec fn found_next(bm: Bitmap, x: i32, y: i32, fx: i32, fy: i32) -> bool {
    &&& 0 <= fy <= y
    &&& bm.pixel(fx as int, fy as int)
    &&& fy == y ==> align_down(x) <= fx && forall|px: int|
        align_down(x) <= px < fx ==> !#[trigger] bm.pixel(px, y as int)
    &&& fy < y ==> (align_down(x) < 0 || forall|px: int|
        align_down(x) <= px ==> !#[trigger] bm.pixel(px, y as int))
    &&& forall|px: int, py: int| fy < py < y ==> !#[trigger] bm.pixel(px, py)
    &&& fy < y ==> forall|px: int| px < fx ==> !#[trigger] bm.pixel(px, fy as int)
}

/// No pixel of `bm` is set in scan order from `(x, y)`.
pub open spec fn nothing_next(bm: Bitmap, x: i32, y: i32) -> bool {
    &&& align_down(x) < 0 || forall|px: int|
        align_down(x) <= px ==> !#[trigger] bm.pixel(px, y as int)
    &&& forall|px: int, py: int| py < y ==> !#[trigger] bm.pixel(px, py)
}

/// The first set pixel in scan order from `(x, y)`: the rest of row `y`
/// from the word holding column `x`, then whole rows below it in turn.
pub fn find_next(bitmap: &Bitmap, x: i32, y: i32) -> (r: Option<(i32, i32)>)
    requires
        bitmap.wf(),
        y < bitmap.spec_height(),
    ensures
        match r {
            Some((fx, fy)) => found_next(*bitmap, x, y, fx, fy),
            None => nothing_next(*bitmap, x, y),
        },
{
    proof {
        lemma_align_down(x);
        assert(((x & !63i32) & !63i32) == (x & !63i32)) by (bit_vector);
        assert((0i32 & !63i32) == 0i32) by (bit_vector);
    }
    let mut x0 = x & !(WORD_BITS - 1);
    let mut yy = y;
    while yy >= 0
        invariant
            bitmap.wf(),
            yy <= y < bitmap.spec_height(),
            yy == y ==> x0 == (x & !63i32),
            yy < y ==> x0 == 0,
            yy < y ==> (align_down(x) < 0 || forall|px: int|
                align_down(x) <= px ==> !#[trigger] bitmap.pixel(px, y as int)),
            forall|px: int, py: int| yy < py < y ==> !#[trigger] bitmap.pixel(px, py),
        decreases yy + 1,
    {
        proof {
            assert(((x & !63i32) & !63i32) == (x & !63i32)) by (bit_vector);
            assert((0i32 & !63i32) == 0i32) by (bit_vector);
        }
        assert(align_down(x0) == if yy == y {
            align_down(x)
        } else {
            0
        });
        match bitmap.scanline_has_bits_from(x0, yy) {
            Some(fx) => {
                return Some((fx, yy));
            },
            None => {},
        }
        proof {
            if yy < y {
                assert forall|px: int, py: int| yy <= py < y implies !#[trigger] bitmap.pixel(px, py) by {
                    if py == yy && px < 0 {
                        assert(!bitmap.pixel(px, py));
                    }
                }
            }
        }
        x0 = 0;
        yy = yy - 1;
    }
    proof {
        assert forall|px: int, py: int| py < y implies !#[trigger] bitmap.pixel(px, py) by {
            if py < 0 {
                assert(!bitmap.pixel(px, py));
            }
        }
    }
    None
}


/// A lattice point.
#[derive(Debug, Clone, Copy, Default, PartialEq, Eq)]
pub struct IPoint {
    pub x: i32,
    pub y: i32,
}

/// `a` modulo `n`, in `0..n`.
pub fn mod_index(a: i32, n: usize) -> (r: usize)
    requires
        1 <= n <= i32::MAX,
    ensures
        r == (a as int) % (n as int),
        r < n,
{
    let ghost nn = n as int;
    let n = n as i32;
    assert(n as int == nn);
    if a >= n {
        (a % n) as usize
    } else if a >= 0 {
        proof {
            vstd::arithmetic::div_mod::lemma_small_mod(a as nat, n as nat);
        }
        a as usize
    } else {
        let m = (-1 - a) % n;
        proof {
            let ai = a as int;
            let ni = n as int;
            let q1 = (-1 - ai) / ni;
            let r1 = (-1 - ai) % ni;
            vstd::arithmetic::div_mod::lemma_fundamental_div_mod(-1 - ai, ni);
            assert(ai == (-q1 - 1) * ni + (ni - 1 - r1)) by (nonlinear_arith)
                requires
                    -1 - ai == ni * q1 + r1,
            ;
            vstd::arithmetic::div_mod::lemma_fundamental_div_mod_converse(ai, ni, -q1 - 1, ni - 1 - r1);
            assert(m as int == r1);
        }
        (n - 1 - m) as usize
    }
}

/// Whether `b` lies in the cyclic interval from `a` (inclusive) to `c`
/// (exclusive).
pub fn cyclic(a: usize, b: usize, c: usize, _n: usize) -> (r: bool)
    ensures
        r == if a <= c {
            a <= b && b < c
        } else {
            a <= b || b < c
        },
{
    if a <= c {
        a <= b && b < c
    } else {
        a <= b || b < c
    }
}

/// Division rounding toward negative infinity.
pub fn floor_div(a: i32, n: i32) -> (r: i32)
    requires
        n > 0,
    ensures
        r == (a as int) / (n as int),
{
    if a >= 0 {
        a / n
    } else {
        let q = (-1 - a) / n;
        proof {
            let ai = a as int;
            let ni = n as int;
            assert(-1 - (-1 - ai) / ni == ai / ni) by (nonlinear_arith)
                requires
                    ai < 0,
                    ni >= 1,
            {
                vstd::arithmetic::div_mod::lemma_fundamental_div_mod(-1 - ai, ni);
                vstd::arithmetic::div_mod::lemma_fundamental_div_mod(ai, ni);
            }
        }
        -1 - q
    }
}

/// The cross product of two lattice vectors.
pub fn xprod_i(a: IPoint, b: IPoint) -> (r: i32)
    requires
        i32::MIN <= (a.x as int) * (b.y as int) <= i32::MAX,
        i32::MIN <= (a.y as int) * (b.x as int) <= i32::MAX,
        i32::MIN <= (a.x as int) * (b.y as int) - (a.y as int) * (b.x as int) <= i32::MAX,
    ensures
        r == (a.x as int) * (b.y as int) - (a.y as int) * (b.x as int),
{
    a.x * b.y - a.y * b.x
}

/// The sign of a value: -1, 0 or 1.
pub fn sign(value: i32) -> (r: i32)
    ensures
        r == if value > 0 {
            1int
        } else if value < 0 {
            -1int
        } else {
            0int
        },
{
    if value > 0 {
        1
    } else if value < 0 {
        -1
    } else {
        0
    }
}

/// The decimal text of an integer.
pub open spec fn int_text(v: int) -> Seq<char> {
    if v < 0 {
        seq!['-'] + decimal((-v) as nat)
    } else {
        decimal(v as nat)
    }
}

/// One DXF group: the code right-aligned in three columns, then the value,
/// each on its own line.
pub open spec fn group_text(code: i32, value: Seq<char>) -> Seq<char> {
    pad_left(int_text(code as int), 3, ' ') + seq!['\n'] + value + seq!['\n']
}

fn push_int(out: &mut Vec<char>, v: i32)
    ensures
        final(out)@ == old(out)@ + int_text(v as int),
{
    if v < 0 {
        out.push('-');
        let m: u32 = (-(v as i64)) as u32;
        push_decimal(out, m as u64);
    } else {
        push_decimal(out, v as u64);
    }
}

fn int_chars(v: i32) -> (r: Vec<char>)
    ensures
        r@ == int_text(v as int),
{
    let mut r: Vec<char> = Vec::new();
    push_int(&mut r, v);
    assert(r@ =~= int_text(v as int));
    r
}

/// Writes one DXF group.
pub fn ship(out: &mut String, group_code: i32, value: &str)
    ensures
        final(out)@ == old(out)@ + group_text(group_code, value@),
{
    let code = int_chars(group_code);
    let mut line: Vec<char> = Vec::new();
    push_padded_left(&mut line, &code, 3, ' ');
    line.push('\n');
    crate::text::push_str(&mut line, value);
    line.push('\n');
    assert(line@ =~= group_text(group_code, value@));
    let text = string_from_chars(&line);
    out.append(text.as_str());
}

/// Writes one DXF group whose value is an integer.
pub fn ship_i32(out: &mut String, group_code: i32, value: i32)
    ensures
        final(out)@ == old(out)@ + group_text(group_code, int_text(value as int)),
{
    let v = int_chars(value);
    let text = string_from_chars(&v);
    ship(out, group_code, text.as_str());
}

/// Writes a DXF comment.
pub fn ship_comment(out: &mut String, comment: &str)
    ensures
        final(out)@ == old(out)@ + group_text(999, comment@),
{
    ship(out, 999, comment);
}

/// Opens a DXF section.
pub fn ship_section(out: &mut String, name: &str)
    ensures
        final(out)@ == old(out)@ + group_text(0, "SECTION"@) + group_text(2, name@),
{
    ship(out, 0, "SECTION");
    ship(out, 2, name);
}

/// Closes a DXF section.
pub fn ship_endsec(out: &mut String)
    ensures
        final(out)@ == old(out)@ + group_text(0, "ENDSEC"@),
{
    ship(out, 0, "ENDSEC");
}


/// The pseudo-random bit table of Potrace's `detrand`.
pub open spec fn detrand_table() -> Seq<u8> {
    seq![
        0u8, 1u8, 1u8, 0u8, 1u8, 0u8, 1u8, 1u8, 0u8, 1u8, 1u8, 0u8, 0u8, 1u8, 1u8, 1u8, 0u8, 0u8, 0u8, 1u8, 1u8, 1u8, 0u8, 1u8, 0u8, 1u8, 1u8, 0u8, 1u8, 0u8,
        0u8, 0u8, 0u8, 0u8, 0u8, 1u8, 1u8, 1u8, 0u8, 1u8, 1u8, 0u8, 0u8, 1u8, 0u8, 0u8, 0u8, 0u8, 0u8, 1u8, 0u8, 0u8, 1u8, 1u8, 0u8, 0u8, 0u8, 1u8, 0u8, 1u8,
        1u8, 1u8, 1u8, 1u8, 1u8, 0u8, 1u8, 1u8, 1u8, 1u8, 1u8, 1u8, 1u8, 0u8, 1u8, 1u8, 0u8, 1u8, 1u8, 1u8, 1u8, 0u8, 1u8, 0u8, 0u8, 0u8, 1u8, 1u8, 0u8, 0u8,
        0u8, 0u8, 1u8, 0u8, 1u8, 1u8, 0u8, 0u8, 1u8, 1u8, 1u8, 0u8, 0u8, 1u8, 0u8, 1u8, 1u8, 1u8, 1u8, 1u8, 1u8, 1u8, 1u8, 1u8, 1u8, 1u8, 0u8, 1u8, 0u8, 0u8,
        0u8, 0u8, 0u8, 0u8, 1u8, 0u8, 1u8, 0u8, 1u8, 0u8, 1u8, 0u8, 0u8, 1u8, 0u8, 0u8, 1u8, 0u8, 1u8, 1u8, 1u8, 0u8, 1u8, 0u8, 0u8, 0u8, 0u8, 1u8, 0u8, 0u8,
        0u8, 0u8, 0u8, 0u8, 1u8, 0u8, 1u8, 0u8, 1u8, 0u8, 1u8, 0u8, 0u8, 1u8, 1u8, 0u8, 1u8, 0u8, 0u8, 0u8, 0u8, 0u8, 0u8, 1u8, 0u8, 0u8, 0u8, 0u8, 1u8, 1u8,
        1u8, 1u8, 0u8, 1u8, 1u8, 0u8, 0u8, 1u8, 1u8, 0u8, 0u8, 1u8, 1u8, 0u8, 1u8, 1u8, 0u8, 0u8, 0u8, 1u8, 1u8, 1u8, 1u8, 0u8, 1u8, 0u8, 0u8, 0u8, 0u8, 1u8,
        0u8, 1u8, 1u8, 1u8, 0u8, 0u8, 0u8, 1u8, 0u8, 1u8, 1u8, 0u8, 0u8, 1u8, 1u8, 1u8, 0u8, 1u8, 0u8, 0u8, 1u8, 1u8, 0u8, 0u8, 1u8, 1u8, 1u8, 0u8, 0u8, 1u8,
        1u8, 1u8, 0u8, 0u8, 0u8, 0u8, 1u8, 0u8, 1u8, 0u8, 1u8, 0u8, 1u8, 0u8, 1u8, 0u8,
    ]
}

/// The mixing hash of `detrand`, with 32-bit wrapping arithmetic.
pub open spec fn detrand_hash(x: i32, y: i32) -> u32 {
    let a = ((0x04b3_e375int * (x as u32 as int)) % 0x1_0000_0000) as u32;
    let b = a ^ (y as u32);
    ((b as int * 0x05a8_ef93int) % 0x1_0000_0000) as u32
}

/// Potrace's deterministic pseudo-random turn decision for `(x, y)`.
pub open spec fn detrand_bit(x: i32, y: i32) -> bool {
    let z = detrand_hash(x, y);
    let t = detrand_table();
    (t[(z & 0xff) as int] ^ t[((z >> 8) & 0xff) as int] ^ t[((z >> 16) & 0xff) as int] ^ t[((z
        >> 24) & 0xff) as int]) != 0
}

/// Potrace's deterministic pseudo-random turn decision for `(x, y)`.
pub fn detrand(x: i32, y: i32) -> (r: bool)
    ensures
        r == detrand_bit(x, y),
{
    let table: [u8; 256] = [
        0u8, 1u8, 1u8, 0u8, 1u8, 0u8, 1u8, 1u8, 0u8, 1u8, 1u8, 0u8, 0u8, 1u8, 1u8, 1u8, 0u8, 0u8, 0u8, 1u8, 1u8, 1u8, 0u8, 1u8, 0u8, 1u8, 1u8, 0u8, 1u8, 0u8,
        0u8, 0u8, 0u8, 0u8, 0u8, 1u8, 1u8, 1u8, 0u8, 1u8, 1u8, 0u8, 0u8, 1u8, 0u8, 0u8, 0u8, 0u8, 0u8, 1u8, 0u8, 0u8, 1u8, 1u8, 0u8, 0u8, 0u8, 1u8, 0u8, 1u8,
        1u8, 1u8, 1u8, 1u8, 1u8, 0u8, 1u8, 1u8, 1u8, 1u8, 1u8, 1u8, 1u8, 0u8, 1u8, 1u8, 0u8, 1u8, 1u8, 1u8, 1u8, 0u8, 1u8, 0u8, 0u8, 0u8, 1u8, 1u8, 0u8, 0u8,
        0u8, 0u8, 1u8, 0u8, 1u8, 1u8, 0u8, 0u8, 1u8, 1u8, 1u8, 0u8, 0u8, 1u8, 0u8, 1u8, 1u8, 1u8, 1u8, 1u8, 1u8, 1u8, 1u8, 1u8, 1u8, 1u8, 0u8, 1u8, 0u8, 0u8,
        0u8, 0u8, 0u8, 0u8, 1u8, 0u8, 1u8, 0u8, 1u8, 0u8, 1u8, 0u8, 0u8, 1u8, 0u8, 0u8, 1u8, 0u8, 1u8, 1u8, 1u8, 0u8, 1u8, 0u8, 0u8, 0u8, 0u8, 1u8, 0u8, 0u8,
        0u8, 0u8, 0u8, 0u8, 1u8, 0u8, 1u8, 0u8, 1u8, 0u8, 1u8, 0u8, 0u8, 1u8, 1u8, 0u8, 1u8, 0u8, 0u8, 0u8, 0u8, 0u8, 0u8, 1u8, 0u8, 0u8, 0u8, 0u8, 1u8, 1u8,
        1u8, 1u8, 0u8, 1u8, 1u8, 0u8, 0u8, 1u8, 1u8, 0u8, 0u8, 1u8, 1u8, 0u8, 1u8, 1u8, 0u8, 0u8, 0u8, 1u8, 1u8, 1u8, 1u8, 0u8, 1u8, 0u8, 0u8, 0u8, 0u8, 1u8,
        0u8, 1u8, 1u8, 1u8, 0u8, 0u8, 0u8, 1u8, 0u8, 1u8, 1u8, 0u8, 0u8, 1u8, 1u8, 1u8, 0u8, 1u8, 0u8, 0u8, 1u8, 1u8, 0u8, 0u8, 1u8, 1u8, 1u8, 0u8, 0u8, 1u8,
        1u8, 1u8, 0u8, 0u8, 0u8, 0u8, 1u8, 0u8, 1u8, 0u8, 1u8, 0u8, 1u8, 0u8, 1u8, 0u8,
    ];
    assert(table@ =~= detrand_table());
    let a: u32 = ((0x04b3_e375u64 * (x as u32) as u64) % 0x1_0000_0000) as u32;
    let b: u32 = a ^ (y as u32);
    let z: u32 = ((b as u64 * 0x05a8_ef93u64) % 0x1_0000_0000) as u32;
    assert(z == detrand_hash(x, y));
    assert((z & 0xff) < 256 && ((z >> 8) & 0xff) < 256 && ((z >> 16) & 0xff) < 256 && ((z >> 24)
        & 0xff) < 256) by (bit_vector);
    let bit = table[(z & 0xff) as usize] ^ table[((z >> 8) & 0xff) as usize] ^ table[((z >> 16)
        & 0xff) as usize] ^ table[((z >> 24) & 0xff) as usize];
    bit != 0
}

/// `1` for a set pixel, `-1` for an unset one.
pub open spec fn vote(b: bool) -> int {
    if b {
        1
    } else {
        -1
    }
}

/// The votes of the four pixels at offset `a` on the square ring of
/// radius `r` around the corner `(x, y)`.
pub open spec fn ring_term(bm: Bitmap, x: int, y: int, r: int, a: int) -> int {
    vote(bm.pixel(x + a, y + r - 1)) + vote(bm.pixel(x + r - 1, y + a - 1)) + vote(
        bm.pixel(x + a - 1, y - r),
    ) + vote(bm.pixel(x - r, y + a))
}

/// The votes of the ring of radius `r` for offsets `-r + 1 .. end`.
pub open spec fn ring_sum(bm: Bitmap, x: int, y: int, r: int, end: int) -> int
    decreases end + r,
{
    if end <= -r + 1 {
        0
    } else {
        ring_sum(bm, x, y, r, end - 1) + ring_term(bm, x, y, r, end - 1)
    }
}

/// Whether the set pixels win the vote on the first of the rings of radius
/// 2, 3 and 4 that is not a tie; a tie on all three is a loss.
pub open spec fn majority_vote(bm: Bitmap, x: int, y: int) -> bool {
    let c2 = ring_sum(bm, x, y, 2, 2);
    let c3 = ring_sum(bm, x, y, 3, 3);
    let c4 = ring_sum(bm, x, y, 4, 4);
    if c2 != 0 {
        c2 > 0
    } else if c3 != 0 {
        c3 > 0
    } else {
        c4 > 0
    }
}

fn vote_exec(b: bool) -> (r: i32)
    ensures
        r == vote(b),
{
    if b {
        1
    } else {
        -1
    }
}

/// The majority vote of the pixels around corner `(x, y)`.
pub fn majority(bitmap: &Bitmap, x: i32, y: i32) -> (r: bool)
    requires
        bitmap.wf(),
        i32::MIN + 8 <= x <= i32::MAX - 8,
        i32::MIN + 8 <= y <= i32::MAX - 8,
    ensures
        r == majority_vote(*bitmap, x as int, y as int),
{
    let mut radius: i32 = 2;
    while radius < 5
        invariant
            bitmap.wf(),
            i32::MIN + 8 <= x <= i32::MAX - 8,
            i32::MIN + 8 <= y <= i32::MAX - 8,
            2 <= radius <= 5,
            radius > 2 ==> ring_sum(*bitmap, x as int, y as int, 2, 2) == 0,
            radius > 3 ==> ring_sum(*bitmap, x as int, y as int, 3, 3) == 0,
            radius > 4 ==> ring_sum(*bitmap, x as int, y as int, 4, 4) == 0,
        decreases 5 - radius,
    {
        let mut count: i32 = 0;
        let mut a: i32 = -radius + 1;
        while a <= radius - 1
            invariant
                bitmap.wf(),
                i32::MIN + 8 <= x <= i32::MAX - 8,
                i32::MIN + 8 <= y <= i32::MAX - 8,
                2 <= radius <= 4,
                -radius + 1 <= a <= radius,
                count == ring_sum(*bitmap, x as int, y as int, radius as int, a as int),
                -4 * (a + radius - 1) <= count <= 4 * (a + radius - 1),
            decreases radius - a,
        {
            let t1 = vote_exec(bitmap.get(x + a, y + radius - 1));
            let t2 = vote_exec(bitmap.get(x + radius - 1, y + a - 1));
            let t3 = vote_exec(bitmap.get(x + a - 1, y - radius));
            let t4 = vote_exec(bitmap.get(x - radius, y + a));
            count = count + t1 + t2 + t3 + t4;
            a = a + 1;
        }
        if count > 0 {
            return true;
        }
        if count < 0 {
            return false;
        }
        radius = radius + 1;
    }
    false
}

/// Whether the boundary walk turns right at an ambiguous corner.
pub open spec fn turns_right(bm: Bitmap, x: i32, y: i32, sign: char, policy: TurnPolicy) -> bool {
    match policy {
        TurnPolicy::Right => true,
        TurnPolicy::Black => sign == '+',
        TurnPolicy::White => sign == '-',
        TurnPolicy::Random => detrand_bit(x, y),
        TurnPolicy::Majority => majority_vote(bm, x as int, y as int),
        TurnPolicy::Minority => !majority_vote(bm, x as int, y as int),
        TurnPolicy::Left => false,
    }
}

/// The minority policy decides every ambiguous corner the other way from the
/// majority policy. So when the set pixels around the corner lose the vote
/// on the nearest ring, a minority walk turns right, keeping diagonally
/// touching set pixels in one path, and a majority walk turns left; when
/// they win it, the other way round.
pub proof fn law_minority_opposes_majority(bm: Bitmap, x: i32, y: i32, sign: char)
    ensures
        turns_right(bm, x, y, sign, TurnPolicy::Minority) == !turns_right(
            bm,
            x,
            y,
            sign,
            TurnPolicy::Majority,
        ),
        ring_sum(bm, x as int, y as int, 2, 2) < 0 ==> turns_right(bm, x, y, sign, TurnPolicy::Minority)
            && !turns_right(bm, x, y, sign, TurnPolicy::Majority),
        ring_sum(bm, x as int, y as int, 2, 2) > 0 ==> !turns_right(bm, x, y, sign, TurnPolicy::Minority)
            && turns_right(bm, x, y, sign, TurnPolicy::Majority),
{
}

/// Whether the boundary walk turns right at the ambiguous corner `(x, y)`
/// of a path of the given sign.
pub fn should_turn_right(bitmap: &Bitmap, x: i32, y: i32, sign: char, turn_policy: TurnPolicy) -> (r:
    bool)
    requires
        bitmap.wf(),
        i32::MIN + 8 <= x <= i32::MAX - 8,
        i32::MIN + 8 <= y <= i32::MAX - 8,
    ensures
        r == turns_right(*bitmap, x, y, sign, turn_policy),
{
    match turn_policy {
        TurnPolicy::Right => true,
        TurnPolicy::Black => sign == '+',
        TurnPolicy::White => sign == '-',
        TurnPolicy::Random => detrand(x, y),
        TurnPolicy::Majority => majority(bitmap, x, y),
        TurnPolicy::Minority => !majority(bitmap, x, y),
        TurnPolicy::Left => false,
    }
}


impl Bitmap {
    /// Inverts the whole word at `index`, which holds columns
    /// `i .. i + 64` of row `y`, all inside the bitmap.
    fn flip_word(&mut self, i: i32, y: i32)
        requires
            old(self).wf(),
            0 <= y < old(self).spec_height(),
            0 <= i,
            i % 64 == 0,
            i + 64 <= old(self).spec_width(),
        ensures
            final(self).wf(),
            final(self).spec_width() == old(self).spec_width(),
            final(self).spec_height() == old(self).spec_height(),
            forall|px: int, py: int| #[trigger] final(self).pixel(px, py) == (old(self).pixel(px, py)
                != (py == y && i <= px < i + 64)),
    {
        let index = self.word_index(i, y);
        let old_word = self.map[index];
        let ghost before = *self;
        self.map.set(index, old_word ^ ALL_BITS);
        proof {
            self.lemma_word_change(before, i as int, y as int, old_word ^ 0xffff_ffff_ffff_ffffu64);
            assert forall|px: int, py: int| #[trigger] self.pixel(px, py) == (before.pixel(px, py) != (
            py == y && i <= px < i + 64)) by {
                if py == y && i <= px < i + 64 {
                    lemma_bit_flip_all(old_word, (px % 64) as u64);
                    assert(px / 64 == i / 64);
                }
            }
            assert forall|px: int, py: int|
                self.width <= px < 64 * self.dy && 0 <= py < self.height implies !word_bit(
                #[trigger] self.word_at(px, py),
                (px % 64) as u64,
            ) by {
                assert(px >= i + 64);
                assert(px / 64 >= (i + 64) / 64);
                assert((i + 64) / 64 == i / 64 + 1);
                assert(!(py == y && px / 64 == i / 64));
                assert(self.word_at(px, py) == before.word_at(px, py));
                assert(before.wf());
                assert(before.width <= px < 64 * before.dy && 0 <= py < before.height);
                assert(!word_bit(before.word_at(px, py), (px % 64) as u64));
            }
        }
    }

    /// Inverts columns `i .. i + lo` of row `y`, the head of the word at `i`.
    fn flip_word_head(&mut self, i: i32, y: i32, lo: i32)
        requires
            old(self).wf(),
            0 <= y < old(self).spec_height(),
            0 <= i,
            i % 64 == 0,
            1 <= lo < 64,
            i + lo <= old(self).spec_width(),
        ensures
            final(self).wf(),
            final(self).spec_width() == old(self).spec_width(),
            final(self).spec_height() == old(self).spec_height(),
            forall|px: int, py: int| #[trigger] final(self).pixel(px, py) == (old(self).pixel(px, py)
                != (py == y && i <= px < i + lo)),
    {
        let index = self.word_index(i, y);
        let old_word = self.map[index];
        let m = ALL_BITS << ((WORD_BITS - lo) as u64);
        let ghost before = *self;
        self.map.set(index, old_word ^ m);
        proof {
            self.lemma_word_change(before, i as int, y as int, old_word ^ m);
            assert forall|px: int, py: int| #[trigger] self.pixel(px, py) == (before.pixel(px, py) != (
            py == y && i <= px < i + lo)) by {
                if py == y && px / 64 == i / 64 {
                    lemma_bit_flip_high(old_word, lo as u64, (px % 64) as u64);
                }
            }
            assert forall|px: int, py: int|
                self.width <= px < 64 * self.dy && 0 <= py < self.height implies !word_bit(
                #[trigger] self.word_at(px, py),
                (px % 64) as u64,
            ) by {
                assert(before.wf());
                assert(before.width <= px < 64 * before.dy && 0 <= py < before.height);
                assert(!word_bit(before.word_at(px, py), (px % 64) as u64));
                if py == y && px / 64 == i / 64 {
                    assert(px % 64 >= lo);
                    assert(before.word_at(px, py) == old_word);
                    lemma_bit_flip_high(old_word, lo as u64, (px % 64) as u64);
                } else {
                    assert(self.word_at(px, py) == before.word_at(px, py));
                }
            }
        }
    }

    /// After storing `word` at the word of column `i` in row `y`, every
    /// other word is unchanged.
    proof fn lemma_word_change(&self, before: Bitmap, i: int, y: int, word: u64)
        requires
            before.wf(),
            0 <= y < before.height,
            0 <= i < 64 * before.dy,
            self.width == before.width,
            self.height == before.height,
            self.dy == before.dy,
            self.map@ == before.map@.update(y * before.dy + i / 64, word),
        ensures
            self.map@.len() == before.map@.len(),
            forall|px: int, py: int|
                0 <= px < 64 * self.dy && 0 <= py < self.height ==> #[trigger] self.word_at(px, py)
                    == if py == y && px / 64 == i / 64 {
                    word
                } else {
                    before.word_at(px, py)
                },
    {
        let dy = self.dy as int;
        lemma_index_bounds(i, y, dy, self.height as int);
        assert forall|px: int, py: int|
            0 <= px < 64 * self.dy && 0 <= py < self.height implies #[trigger] self.word_at(px, py)
            == if py == y && px / 64 == i / 64 {
            word
        } else {
            before.word_at(px, py)
        } by {
            lemma_index_bounds(px, py, dy, self.height as int);
            if py * dy + px / 64 == y * dy + i / 64 {
                lemma_index_injective(px / 64, py, i / 64, y, dy);
            }
        }
    }
}

/// Inverts row `y` between column `x` and the word-aligned column `xa`:
/// the columns from the smaller to the larger of the two.
pub fn xor_to_ref(bitmap: &mut Bitmap, x: i32, y: i32, xa: i32)
    requires
        old(bitmap).wf(),
        0 <= y < old(bitmap).spec_height(),
        0 <= x <= old(bitmap).spec_width(),
        0 <= xa <= old(bitmap).spec_width(),
        xa % 64 == 0,
    ensures
        final(bitmap).wf(),
        final(bitmap).spec_width() == old(bitmap).spec_width(),
        final(bitmap).spec_height() == old(bitmap).spec_height(),
        forall|px: int, py: int| #[trigger] final(bitmap).pixel(px, py) == (old(bitmap).pixel(px, py)
            != (py == y && (if x <= xa {
            x <= px < xa
        } else {
            xa <= px < x
        }))),
{
    let xhi = x & !(WORD_BITS - 1);
    let xlo = x & (WORD_BITS - 1);
    proof {
        assert(x >= 0 ==> (x & !63i32) == x - x % 64 && (x & 63i32) == x % 64) by (bit_vector);
    }
    let ghost orig = *bitmap;
    let (start, stop) = if xhi < xa {
        (xhi, xa)
    } else {
        (xa, xhi)
    };
    let mut i = start;
    while i < stop
        invariant
            bitmap.wf(),
            bitmap.spec_width() == orig.spec_width(),
            bitmap.spec_height() == orig.spec_height(),
            0 <= y < orig.spec_height(),
            0 <= start <= i <= stop <= orig.spec_width(),
            start % 64 == 0,
            stop % 64 == 0,
            i % 64 == 0,
            forall|px: int, py: int| #[trigger] bitmap.pixel(px, py) == (orig.pixel(px, py) != (py
                == y && start <= px < i)),
        decreases stop - i,
    {
        let ghost before = *bitmap;
        bitmap.flip_word(i, y);
        i = i + WORD_BITS;
    }
    if xlo != 0 {
        bitmap.flip_word_head(xhi, y, xlo);
    }
}

} // verus!
