//! The destination of a frame: a rectangle of packed 32-bit pixels in memory
//! whose rows may be longer than the rectangle is wide.

use vstd::prelude::*;
use vstd::arithmetic::div_mod::{lemma_fundamental_div_mod, lemma_fundamental_div_mod_converse};

verus! {

/// A pixel buffer as a plain value.
///
/// `pitch` is the distance in bytes from one row to the next, so a row holds
/// `pitch / 4` words, of which the first `width` are pixels and the rest is
/// padding.
pub struct Image {
    pub width: int,
    pub height: int,
    pub pitch: int,
    pub words: Seq<u32>,
}

impl Image {
    /// Words from one row to the next.
    pub open spec fn stride(self) -> int {
        self.pitch / 4
    }

    /// Rows are whole words, do not overlap, and fill the memory exactly.
    pub open spec fn wf(self) -> bool {
        &&& 0 <= self.width
        &&& 0 <= self.height
        &&& self.pitch % 4 == 0
        &&& 4 * self.width <= self.pitch
        &&& self.words.len() == self.stride() * self.height
    }

    /// Where pixel `(x, y)` lies in `words`.
    pub open spec fn index_of(self, x: int, y: int) -> int {
        y * self.stride() + x
    }

    /// The pixel in column `x` of row `y`.
    pub open spec fn pixel(self, x: int, y: int) -> u32 {
        self.words[self.index_of(x, y)]
    }

    /// Whether word `i` lies in the padding behind a row.
    pub open spec fn is_padding(self, i: int) -> bool {
        &&& 0 <= i < self.words.len()
        &&& i % self.stride() >= self.width
    }

    /// Whether `other` has the layout of `self`.
    pub open spec fn same_layout(self, other: Image) -> bool {
        &&& self.width == other.width
        &&& self.height == other.height
        &&& self.pitch == other.pitch
        &&& self.words.len() == other.words.len()
    }
}

/// A pixel lies inside the memory, and no two pixels share a word.
pub proof fn lemma_index_of(image: Image, x: int, y: int)
    requires
        image.wf(),
        0 <= x < image.width,
        0 <= y < image.height,
    ensures
        0 <= image.index_of(x, y) < image.words.len(),
        image.index_of(x, y) / image.stride() == y,
        image.index_of(x, y) % image.stride() == x,
        !image.is_padding(image.index_of(x, y)),
{
    let s = image.stride();
    assert(s > 0);
    assert(0 <= y * s) by (nonlinear_arith)
        requires
            0 <= y,
            0 < s,
    ;
    assert(y * s + s <= image.height * s) by (nonlinear_arith)
        requires
            y < image.height,
            0 < s,
    ;
    assert(image.height * s == s * image.height) by (nonlinear_arith);
    lemma_fundamental_div_mod_converse(image.index_of(x, y), s, y, x);
}

/// Every word of the memory is a pixel or padding: the memory holds nothing
/// else.
pub proof fn lemma_word_is_pixel_or_padding(image: Image, i: int)
    requires
        image.wf(),
        0 <= i < image.words.len(),
        !image.is_padding(i),
    ensures
        0 <= i % image.stride() < image.width,
        0 <= i / image.stride() < image.height,
        image.index_of(i % image.stride(), i / image.stride()) == i,
{
    let s = image.stride();
    assert(s > 0) by {
        if s <= 0 {
            assert(s * image.height == 0) by (nonlinear_arith)
                requires
                    s == 0,
            ;
        }
    }
    lemma_fundamental_div_mod(i, s);
    let y = i / s;
    assert(s * y == y * s) by (nonlinear_arith);
    if y >= image.height {
        assert(s * y >= s * image.height) by (nonlinear_arith)
            requires
                y >= image.height,
                0 < s,
        ;
    }
    if y < 0 {
        assert(s * y <= -s) by (nonlinear_arith)
            requires
                y <= -1,
                0 < s,
        ;
    }
}

/// A rectangle of packed 32-bit pixels.
pub struct PixelBuffer {
    width: u32,
    height: u32,
    pitch: u32,
    words: Vec<u32>,
}

impl View for PixelBuffer {
    type V = Image;

    closed spec fn view(&self) -> Image {
        Image {
            width: self.width as int,
            height: self.height as int,
            pitch: self.pitch as int,
            words: self.words@,
        }
    }
}

impl PixelBuffer {
    #[verifier::type_invariant]
    spec fn inv(&self) -> bool {
        self@.wf()
    }

    /// Whether rows `pitch` bytes apart can hold `width` pixels each, and
    /// `height` such rows can be addressed.
    pub open spec fn fits(width: u32, height: u32, pitch: u32) -> bool {
        &&& pitch % 4 == 0
        &&& 4 * width <= pitch
        &&& (pitch / 4) * height <= usize::MAX
    }

    /// A buffer of the given layout with every word zero, where the layout
    /// fits.
    pub fn new(width: u32, height: u32, pitch: u32) -> (made: Option<PixelBuffer>)
        ensures
            made.is_some() <==> Self::fits(width, height, pitch),
            made matches Some(buffer) ==> buffer@.wf() && buffer@.width == width && buffer@.height
                == height && buffer@.pitch == pitch,
            made matches Some(buffer) ==> forall|i: int|
                0 <= i < buffer@.words.len() ==> buffer@.words[i] == 0,
    {
        match Self::word_count(width, height, pitch) {
            Some(count) => Some(PixelBuffer { width, height, pitch, words: vec![0u32; count] }),
            None => None,
        }
    }

    /// A buffer of the given layout over `words`, where the layout fits and
    /// `words` has the length it asks for.
    pub fn from_words(width: u32, height: u32, pitch: u32, words: Vec<u32>) -> (made: Option<
        PixelBuffer,
    >)
        ensures
            made.is_some() <==> (Self::fits(width, height, pitch) && words.len() == (pitch / 4)
                * height),
            made matches Some(buffer) ==> buffer@.wf() && buffer@.width == width && buffer@.height
                == height && buffer@.pitch == pitch && buffer@.words == words@,
    {
        match Self::word_count(width, height, pitch) {
            Some(count) => {
                if words.len() == count {
                    Some(PixelBuffer { width, height, pitch, words })
                } else {
                    None
                }
            },
            None => None,
        }
    }

    /// The number of words of a layout that fits.
    fn word_count(width: u32, height: u32, pitch: u32) -> (count: Option<usize>)
        ensures
            count.is_some() <==> Self::fits(width, height, pitch),
            count matches Some(n) ==> n == (pitch / 4) * height,
    {
        if pitch % 4 != 0 || pitch / 4 < width {
            return None;
        }
        let stride: u64 = (pitch / 4) as u64;
        assert(stride * height <= 0x4000_0000 * 0x1_0000_0000) by (nonlinear_arith)
            requires
                0 <= stride <= 0x4000_0000,
                0 <= height <= 0x1_0000_0000,
        ;
        let total: u64 = stride * height as u64;
        if total > usize::MAX as u64 {
            return None;
        }
        Some(total as usize)
    }

    /// Width in pixels.
    pub fn width(&self) -> (w: u32)
        ensures
            w == self@.width,
            self@.wf(),
    {
        proof {
            use_type_invariant(self);
        }
        self.width
    }

    /// Height in pixels.
    pub fn height(&self) -> (h: u32)
        ensures
            h == self@.height,
            self@.wf(),
    {
        proof {
            use_type_invariant(self);
        }
        self.height
    }

    /// Width and height in pixels.
    pub fn size(&self) -> (s: (u32, u32))
        ensures
            s.0 == self@.width,
            s.1 == self@.height,
            self@.wf(),
    {
        proof {
            use_type_invariant(self);
        }
        (self.width, self.height)
    }

    /// Bytes from one row to the next.
    pub fn pitch(&self) -> (p: u32)
        ensures
            p == self@.pitch,
            self@.wf(),
    {
        proof {
            use_type_invariant(self);
        }
        self.pitch
    }

    /// The memory, row by row.
    pub fn words(&self) -> (w: &Vec<u32>)
        ensures
            w@ == self@.words,
    {
        &self.words
    }

    /// Gives up the memory.
    pub fn into_words(self) -> (w: Vec<u32>)
        ensures
            w@ == self@.words,
    {
        self.words
    }

    /// The pixel in column `x` of row `y`, if there is one.
    pub fn get(&self, x: u32, y: u32) -> (value: Option<u32>)
        ensures
            value == (if x < self@.width && y < self@.height {
                Some(self@.pixel(x as int, y as int))
            } else {
                None
            }),
    {
        if x < self.width && y < self.height {
            Some(self.words[self.offset(x, y)])
        } else {
            None
        }
    }

    /// Where pixel `(x, y)` lies in the memory.
    fn offset(&self, x: u32, y: u32) -> (at: usize)
        requires
            x < self@.width,
            y < self@.height,
        ensures
            at == self@.index_of(x as int, y as int),
            at < self@.words.len(),
    {
        proof {
            use_type_invariant(self);
            lemma_index_of(self@, x as int, y as int);
        }
        let stride: usize = (self.pitch / 4) as usize;
        let row: usize = y as usize;
        let len: usize = self.words.len();
        assert(0 <= row * stride <= row * stride + x < len) by (nonlinear_arith)
            requires
                0 <= row,
                0 <= stride,
                0 <= x,
                row * stride + x < len,
        ;
        row * stride + x as usize
    }

    /// Stores `value` in column `x` of row `y` and leaves every other word as
    /// it is.
    pub(crate) fn put(&mut self, x: u32, y: u32, value: u32)
        requires
            x < old(self)@.width,
            y < old(self)@.height,
        ensures
            final(self)@.wf(),
            final(self)@.same_layout(old(self)@),
            final(self)@.pixel(x as int, y as int) == value,
            forall|a: int, b: int|
                0 <= a < old(self)@.width && 0 <= b < old(self)@.height && (a != x || b != y)
                    ==> final(self)@.pixel(a, b) == old(self)@.pixel(a, b),
            forall|i: int|
                old(self)@.is_padding(i) ==> final(self)@.words[i] == old(self)@.words[i],
    {
        proof {
            use_type_invariant(&*self);
            lemma_index_of(self@, x as int, y as int);
        }
        let at = self.offset(x, y);
        self.words[at] = value;
        proof {
            assert forall|a: int, b: int|
                0 <= a < old(self)@.width && 0 <= b < old(self)@.height && (a != x || b != y)
                implies self@.pixel(a, b) == old(self)@.pixel(a, b) by {
                lemma_index_of(old(self)@, a, b);
            }
        }
    }
}

} // verus!
