//! The canvas store: its dimensions and the packed pixel buffer, with
//! single-pixel writes, full and rectangular reads, whitening and growth.

use vstd::prelude::*;
use vstd::arithmetic::div_mod::{lemma_fundamental_div_mod, lemma_fundamental_div_mod_converse};

use crate::codec::{lemma_pack_halves, nibble_at, pack};
use crate::error::CanvasError;

verus! {

/// Width and height of a canvas, in pixels.
#[derive(Debug, Clone, Copy, PartialEq, Eq, Structural)]
pub struct CanvasSize {
    pub width: u32,
    pub height: u32,
}

/// Largest number of pixels a canvas may hold, so that every linear pixel
/// index fits in a `u32`.
pub const MAX_PIXELS: u64 = 0xffff_ffff;

/// Dimensions that a canvas may have: both even, and not too many pixels.
pub open spec fn valid_size(width: int, height: int) -> bool {
    &&& width % 2 == 0
    &&& height % 2 == 0
    &&& 0 <= width
    &&& 0 <= height
    &&& width * height <= MAX_PIXELS
}

/// Number of bytes that hold a canvas of the given dimensions.
pub open spec fn byte_len(width: int, height: int) -> int {
    width * height / 2
}

/// Splitting the linear index of `(x, y)` on an even width into byte and nibble.
pub proof fn lemma_split_index(x: int, y: int, w: int)
    requires
        0 <= x,
        0 <= y,
        0 <= w,
        w % 2 == 0,
    ensures
        (y * w + x) / 2 == y * (w / 2) + x / 2,
        (y * w + x) % 2 == x % 2,
{
    let hw = w / 2;
    assert(w == 2 * hw);
    assert(y * w == 2 * (y * hw)) by (nonlinear_arith)
        requires
            w == 2 * hw,
    ;
}

/// Linear indices of pixels inside a `width × height` canvas stay inside its buffer.
pub proof fn lemma_index_in_buffer(x: int, y: int, width: int, height: int)
    requires
        0 <= x < width,
        0 <= y < height,
        width % 2 == 0,
    ensures
        0 <= y * width + x < width * height,
        (y * width + x) / 2 < width * height / 2,
{
    assert(y * width + x < width * height) by (nonlinear_arith)
        requires
            0 <= x < width,
            0 <= y < height,
    ;
    assert(0 <= y * width) by (nonlinear_arith)
        requires
            0 <= y,
            0 <= width,
    ;
    lemma_even_product(width, height);
}

/// The product of an even number and another is even.
proof fn lemma_even_product(width: int, height: int)
    requires
        width % 2 == 0,
    ensures
        (width * height) % 2 == 0,
{
    let hw = width / 2;
    assert(width * height == 2 * (hw * height)) by (nonlinear_arith)
        requires
            width == 2 * hw,
    ;
}

/// The product of two `u32` values fits in a `u64`.
proof fn lemma_u32_product(a: u32, b: u32)
    ensures
        (a as int) * (b as int) <= 0xffff_ffff * 0xffff_ffff,
        0 <= (a as int) * (b as int),
{
    assert((a as int) * (b as int) <= 0xffff_ffff * 0xffff_ffff) by (nonlinear_arith)
        requires
            a <= 0xffff_ffff,
            b <= 0xffff_ffff,
    ;
    assert(0 <= (a as int) * (b as int)) by (nonlinear_arith)
        requires
            0 <= a,
            0 <= b,
    ;
}

/// The zeroed buffer of a fresh canvas of the given size.
pub fn init_pixel_file(size: &CanvasSize) -> (r: Result<Vec<u8>, CanvasError>)
    ensures
        valid_size(size.width as int, size.height as int) <==> r is Ok,
        r is Err ==> r == Err::<Vec<u8>, CanvasError>(CanvasError::InvalidDimensions),
        r matches Ok(data) ==> data@ == Seq::new(
            byte_len(size.width as int, size.height as int) as nat,
            |i: int| 0u8,
        ),
{
    if size.width % 2 != 0 || size.height % 2 != 0 {
        return Err(CanvasError::InvalidDimensions);
    }
    proof {
        lemma_u32_product(size.width, size.height);
    }
    let pixels: u64 = (size.width as u64) * (size.height as u64);
    if pixels > MAX_PIXELS {
        return Err(CanvasError::InvalidDimensions);
    }
    let n: usize = (pixels / 2) as usize;
    let mut data: Vec<u8> = Vec::new();
    let mut i: usize = 0;
    while i < n
        invariant
            i <= n,
            data@.len() == i,
            forall|k: int| 0 <= k < i ==> data@[k] == 0u8,
        decreases n - i,
    {
        data.push(0u8);
        i = i + 1;
    }
    assert(data@ =~= Seq::new(byte_len(size.width as int, size.height as int) as nat, |i: int| 0u8));
    Ok(data)
}

/// A canvas: its dimensions and the buffer that packs two palette indices
/// into each byte, row-major, the pixel with the even linear index in the
/// high nibble.
pub struct Canvas {
    size: CanvasSize,
    data: Vec<u8>,
}

impl Canvas {
    /// Width in pixels.
    pub closed spec fn width(&self) -> int {
        self.size.width as int
    }

    /// Height in pixels.
    pub closed spec fn height(&self) -> int {
        self.size.height as int
    }

    /// The packed buffer.
    pub closed spec fn bytes(&self) -> Seq<u8> {
        self.data@
    }

    /// Dimensions are valid and the buffer holds exactly the canvas.
    pub open spec fn wf(&self) -> bool {
        &&& valid_size(self.width(), self.height())
        &&& self.bytes().len() == byte_len(self.width(), self.height())
    }

    /// Palette index of pixel `(x, y)`.
    pub open spec fn pixel(&self, x: int, y: int) -> u8 {
        nibble_at(self.bytes(), y * self.width() + x)
    }

    /// All palette indices in row-major order.
    pub open spec fn pixels(&self) -> Seq<u8> {
        Seq::new((self.width() * self.height()) as nat, |i: int| nibble_at(self.bytes(), i))
    }

    /// A fresh canvas of the given size, every pixel palette index 0.
    pub fn new(size: CanvasSize) -> (r: Result<Canvas, CanvasError>)
        ensures
            valid_size(size.width as int, size.height as int) <==> r is Ok,
            r is Err ==> r == Err::<Canvas, CanvasError>(CanvasError::InvalidDimensions),
            r matches Ok(c) ==> {
                &&& c.wf()
                &&& c.width() == size.width
                &&& c.height() == size.height
                &&& forall|k: int| 0 <= k < c.bytes().len() ==> c.bytes()[k] == 0u8
            },
    {
        match init_pixel_file(&size) {
            Ok(data) => Ok(Canvas { size, data }),
            Err(e) => Err(e),
        }
    }

    /// A canvas over a stored buffer, which must hold exactly the canvas. A
    /// buffer of any other length is refused here, so that every later read
    /// finds each pixel's byte and none has to be skipped.
    pub fn from_bytes(size: CanvasSize, data: Vec<u8>) -> (r: Result<Canvas, CanvasError>)
        ensures
            !valid_size(size.width as int, size.height as int) ==> r == Err::<
                Canvas,
                CanvasError,
            >(CanvasError::InvalidDimensions),
            valid_size(size.width as int, size.height as int) && data@.len() != byte_len(
                size.width as int,
                size.height as int,
            ) ==> r == Err::<Canvas, CanvasError>(CanvasError::StorageUnavailable),
            r matches Ok(c) ==> {
                &&& c.wf()
                &&& c.width() == size.width
                &&& c.height() == size.height
                &&& c.bytes() == data@
            },
            valid_size(size.width as int, size.height as int) && data@.len() == byte_len(
                size.width as int,
                size.height as int,
            ) ==> r is Ok,
    {
        if size.width % 2 != 0 || size.height % 2 != 0 {
            return Err(CanvasError::InvalidDimensions);
        }
        proof {
            lemma_u32_product(size.width, size.height);
        }
        let pixels: u64 = (size.width as u64) * (size.height as u64);
        if pixels > MAX_PIXELS {
            return Err(CanvasError::InvalidDimensions);
        }
        if data.len() as u64 != pixels / 2 {
            return Err(CanvasError::StorageUnavailable);
        }
        Ok(Canvas { size, data })
    }

    /// Current dimensions.
    pub fn dimensions(&self) -> (r: CanvasSize)
        ensures
            r.width == self.width(),
            r.height == self.height(),
    {
        self.size
    }

    /// The packed buffer, as it is to be stored.
    pub fn as_bytes(&self) -> (r: &Vec<u8>)
        ensures
            r@ == self.bytes(),
    {
        &self.data
    }

    /// Sets pixel `(x, y)` to `color_index`, rewriting only the half of the
    /// byte that holds it.
    pub fn write_pixel(&mut self, x: u32, y: u32, color_index: u8) -> (r: Result<(), CanvasError>)
        requires
            old(self).wf(),
        ensures
            final(self).wf(),
            final(self).width() == old(self).width(),
            final(self).height() == old(self).height(),
            r is Ok <==> (x < old(self).width() && y < old(self).height() && color_index < 16),
            (x >= old(self).width() || y >= old(self).height()) ==> r == Err::<(), CanvasError>(
                CanvasError::OutOfBounds,
            ),
            (x < old(self).width() && y < old(self).height() && color_index >= 16) ==> r == Err::<
                (),
                CanvasError,
            >(CanvasError::InvalidColor),
            r is Err ==> *final(self) == *old(self),
            r is Ok ==> final(self).pixels() == old(self).pixels().update(
                y * old(self).width() + x,
                color_index,
            ),
            r is Ok ==> final(self).pixel(x as int, y as int) == color_index,
            r is Ok ==> forall|px: int, py: int|
                0 <= px < old(self).width() && 0 <= py < old(self).height() && (px != x || py != y)
                    ==> #[trigger] final(self).pixel(px, py) == old(self).pixel(px, py),
    {
        if x >= self.size.width || y >= self.size.height {
            return Err(CanvasError::OutOfBounds);
        }
        if color_index >= 16 {
            return Err(CanvasError::InvalidColor);
        }
        let ghost before = self.data@;
        let ghost w = self.size.width as int;
        let ghost i = y * w + x;
        proof {
            lemma_index_in_buffer(x as int, y as int, w, self.size.height as int);
        }
        let (offset, high) = crate::codec::offset_of(x, y, self.size.width);
        let at: usize = offset as usize;
        let updated = pack(self.data[at], color_index, high);
        self.data.set(at, updated);
        proof {
            lemma_pack_halves(before[at as int], color_index, high);
            lemma_even_product(w, self.size.height as int);
            assert forall|j: int| 0 <= j < w * self.size.height implies nibble_at(self.data@, j) == (
            if j == i {
                color_index
            } else {
                nibble_at(before, j)
            }) by {
                assert(j / 2 < before.len());
                if j / 2 == i / 2 {
                    assert(self.data@[j / 2] == updated);
                    if j != i {
                        assert(j % 2 != i % 2);
                    }
                } else {
                    assert(self.data@[j / 2] == before[j / 2]);
                }
            }
            assert(self.pixels() =~= old(self).pixels().update(i, color_index));
            assert forall|px: int, py: int|
                0 <= px < w && 0 <= py < self.size.height && (px != x || py != y) implies
                #[trigger] self.pixel(px, py) == old(self).pixel(px, py) by {
                lemma_index_in_buffer(px, py, w, self.size.height as int);
                if py * w + px == i {
                    lemma_unique_index(px, py, x as int, y as int, w);
                }
            }
        }
        Ok(())
    }

    /// The rectangle `[x0, x1] × [y0, y1]` lies inside the canvas, corners in order.
    pub open spec fn valid_region(&self, x0: int, y0: int, x1: int, y1: int) -> bool {
        &&& x0 <= x1
        &&& y0 <= y1
        &&& x1 < self.width()
        &&& y1 < self.height()
    }

    /// Palette indices of the rectangle `[x0, x1] × [y0, y1]`, row-major.
    pub open spec fn region(&self, x0: int, y0: int, x1: int, y1: int) -> Seq<u8> {
        let cols = x1 - x0 + 1;
        let rows = y1 - y0 + 1;
        Seq::new((cols * rows) as nat, |k: int| self.pixel(x0 + k % cols, y0 + k / cols))
    }

    /// Palette indices of the inclusive rectangle `[x_start, x_end] × [y_start, y_end]`,
    /// row-major, one per pixel.
    pub fn read_region(&self, x_start: u32, y_start: u32, x_end: u32, y_end: u32) -> (r: Result<
        Vec<u8>,
        CanvasError,
    >)
        requires
            self.wf(),
        ensures
            r is Ok <==> self.valid_region(x_start as int, y_start as int, x_end as int, y_end as int),
            r is Err ==> r == Err::<Vec<u8>, CanvasError>(CanvasError::InvalidRegion),
            r matches Ok(v) ==> v@ == self.region(
                x_start as int,
                y_start as int,
                x_end as int,
                y_end as int,
            ),
    {
        if x_start > x_end || y_start > y_end || x_end >= self.size.width || y_end >= self.size.height {
            return Err(CanvasError::InvalidRegion);
        }
        let ghost cols = x_end - x_start + 1;
        let ghost w = self.width();
        let mut out: Vec<u8> = Vec::new();
        let mut y: u32 = y_start;
        while y <= y_end
            invariant
                self.wf(),
                self.valid_region(x_start as int, y_start as int, x_end as int, y_end as int),
                cols == x_end - x_start + 1,
                w == self.width(),
                y_start <= y <= y_end + 1,
                out@.len() == (y - y_start) * cols,
                forall|k: int|
                    0 <= k < out@.len() ==> #[trigger] out@[k] == self.pixel(
                        x_start + k % cols,
                        y_start + k / cols,
                    ),
            decreases y_end + 1 - y,
        {
            let mut x: u32 = x_start;
            while x <= x_end
                invariant
                    self.wf(),
                    self.valid_region(x_start as int, y_start as int, x_end as int, y_end as int),
                    cols == x_end - x_start + 1,
                    w == self.width(),
                    y_start <= y <= y_end,
                    x_start <= x <= x_end + 1,
                    out@.len() == (y - y_start) * cols + (x - x_start),
                    forall|k: int|
                        0 <= k < out@.len() ==> #[trigger] out@[k] == self.pixel(
                            x_start + k % cols,
                            y_start + k / cols,
                        ),
                decreases x_end + 1 - x,
            {
                proof {
                    lemma_index_in_buffer(x as int, y as int, w, self.height());
                    lemma_fundamental_div_mod_converse(
                        out@.len() as int,
                        cols,
                        y - y_start,
                        x - x_start,
                    );
                }
                let (offset, high) = crate::codec::offset_of(x, y, self.size.width);
                let (hi, lo) = crate::codec::unpack(self.data[offset as usize]);
                let v = if high {
                    hi
                } else {
                    lo
                };
                out.push(v);
                x = x + 1;
            }
            proof {
                assert((y - y_start) * cols + cols == (y + 1 - y_start) * cols) by (nonlinear_arith);
            }
            y = y + 1;
        }
        proof {
            assert((y_end + 1 - y_start) * cols == cols * (y_end - y_start + 1)) by (nonlinear_arith);
        }
        assert(out@ =~= self.region(x_start as int, y_start as int, x_end as int, y_end as int));
        Ok(out)
    }

    /// Zeroes, in each row from `y_min` to `y_max`, the bytes from the one
    /// holding column `x_min` on, `(x_max - x_min) / 2 + 1` of them. The
    /// clearing is by whole bytes: with an odd `x_min` it also clears the
    /// pixel left of the rectangle, and with an odd `x_min` and an even
    /// `x_max` it leaves column `x_max` as it was.
    pub fn whiten_area(&mut self, x_min: u32, y_min: u32, x_max: u32, y_max: u32) -> (r: Result<
        (),
        CanvasError,
    >)
        requires
            old(self).wf(),
        ensures
            final(self).wf(),
            final(self).width() == old(self).width(),
            final(self).height() == old(self).height(),
            r is Ok <==> old(self).valid_region(x_min as int, y_min as int, x_max as int, y_max as int),
            r is Err ==> r == Err::<(), CanvasError>(CanvasError::InvalidRegion),
            r is Err ==> *final(self) == *old(self),
            r is Ok ==> forall|k: int|
                0 <= k < final(self).bytes().len() ==> #[trigger] final(self).bytes()[k] == if whitened(
                    k,
                    old(self).width() / 2,
                    x_min as int,
                    y_min as int,
                    x_max as int,
                    y_max as int,
                ) {
                    0u8
                } else {
                    old(self).bytes()[k]
                },
            r is Ok ==> forall|x: int, y: int|
                0 <= x < old(self).width() && 0 <= y < old(self).height()
                    ==> #[trigger] final(self).pixel(x, y) == if y_min <= y <= y_max && x_min / 2
                    <= x / 2 < x_min / 2 + (x_max - x_min) / 2 + 1 {
                    0u8
                } else {
                    old(self).pixel(x, y)
                },
    {
        let width = self.size.width;
        let height = self.size.height;
        if x_min > x_max || y_min > y_max || x_max >= width || y_max >= height {
            return Err(CanvasError::InvalidRegion);
        }
        let ghost before = self.data@;
        let ghost hw: int = width as int / 2;
        let ghost first: int = x_min as int / 2;
        proof {
            lemma_byte_len_rows(width as int, height as int);
            lemma_split_index(x_min as int, y_min as int, width as int);
            lemma_row_col(y_min as int, first as int, height as int, hw as int);
        }
        let start_offset: usize = ((y_min as u64 * width as u64 + x_min as u64) / 2) as usize;
        let bytes_per_row: usize = ((x_max - x_min) / 2 + 1) as usize;
        let bytes_per_canvas_row: usize = (width / 2) as usize;
        let mut offset: usize = start_offset;
        let mut y: u32 = y_min;
        while y <= y_max
            invariant
                self.wf(),
                self.width() == width,
                self.height() == height,
                self.data@.len() == before.len(),
                before.len() == height * hw,
                hw == width / 2,
                width % 2 == 0,
                first == x_min / 2,
                bytes_per_row == (x_max - x_min) / 2 + 1,
                bytes_per_canvas_row == hw,
                first + bytes_per_row <= hw,
                x_min <= x_max < width,
                y_min <= y <= y_max + 1,
                y_max < height,
                offset == y * hw + first,
                forall|k: int|
                    0 <= k < before.len() ==> #[trigger] self.data@[k] == if y_min <= k / hw < y
                        && first <= k % hw < first + bytes_per_row {
                        0u8
                    } else {
                        before[k]
                    },
            decreases y_max + 1 - y,
        {
            proof {
                lemma_row_col(y as int, first as int, height as int, hw as int);
            }
            let mut j: usize = 0;
            while j < bytes_per_row
                invariant
                    self.wf(),
                    self.width() == width,
                    self.height() == height,
                    self.data@.len() == before.len(),
                    before.len() == height * hw,
                    hw == width / 2,
                    first == x_min / 2,
                    bytes_per_row == (x_max - x_min) / 2 + 1,
                    first + bytes_per_row <= hw,
                    y_min <= y <= y_max,
                    y_max < height,
                    y * hw + hw <= height * hw,
                    0 <= y * hw,
                    (y + 1) * hw == y * hw + hw,
                    offset == y * hw + first,
                    0 <= j <= bytes_per_row,
                    forall|k: int|
                        0 <= k < before.len() ==> #[trigger] self.data@[k] == if (y_min <= k / hw < y
                            && first <= k % hw < first + bytes_per_row) || (k / hw == y && first <= k
                            % hw < first + j) {
                            0u8
                        } else {
                            before[k]
                        },
                decreases bytes_per_row - j,
            {
                let at: usize = offset + j;
                proof {
                    lemma_byte_row_col(y as int, first + j, hw as int);
                }
                self.data.set(at, 0u8);
                proof {
                    assert forall|k: int| 0 <= k < before.len() implies #[trigger] self.data@[k]
                        == if (y_min <= k / hw < y && first <= k % hw < first + bytes_per_row) || (k
                        / hw == y && first <= k % hw < first + j + 1) {
                        0u8
                    } else {
                        before[k]
                    } by {
                        if k != at && k / hw == y && k % hw == first + j {
                            lemma_same_row_col(k, y as int, first + j, hw as int);
                        }
                    }
                }
                j = j + 1;
            }
            offset = offset + bytes_per_canvas_row;
            y = y + 1;
        }
        proof {
            assert forall|x: int, y: int|
                0 <= x < width && 0 <= y < height implies #[trigger] self.pixel(x, y) == if y_min
                <= y <= y_max && x_min / 2 <= x / 2 < x_min / 2 + (x_max - x_min) / 2 + 1 {
                0u8
            } else {
                old(self).pixel(x, y)
            } by {
                lemma_split_index(x, y, width as int);
                lemma_byte_row_col(y, x / 2, hw as int);
                lemma_row_col(y, x / 2, height as int, hw as int);
            }
        }
        Ok(())
    }

    /// Grows the canvas to `new_width × new_height`, keeping every pixel at its
    /// coordinates; all new pixels are palette index 0. Checks first that both
    /// are even, then that neither is smaller than now, then that the grown
    /// canvas can be indexed; on any failure the canvas is left as it was.
    pub fn resize(&mut self, new_width: u32, new_height: u32) -> (r: Result<(), CanvasError>)
        requires
            old(self).wf(),
        ensures
            final(self).wf(),
            new_width % 2 != 0 || new_height % 2 != 0 ==> r == Err::<(), CanvasError>(
                CanvasError::InvalidDimensions,
            ),
            new_width % 2 == 0 && new_height % 2 == 0 && (new_width < old(self).width()
                || new_height < old(self).height()) ==> r == Err::<(), CanvasError>(
                CanvasError::ShrinkNotAllowed,
            ),
            new_width % 2 == 0 && new_height % 2 == 0 && new_width >= old(self).width()
                && new_height >= old(self).height() ==> (r is Ok <==> valid_size(
                new_width as int,
                new_height as int,
            )),
            r is Err ==> r == Err::<(), CanvasError>(CanvasError::InvalidDimensions) || r == Err::<
                (),
                CanvasError,
            >(CanvasError::ShrinkNotAllowed) || r == Err::<(), CanvasError>(
                CanvasError::ResizeFailed,
            ),
            r is Err ==> *final(self) == *old(self),
            r is Ok ==> final(self).width() == new_width && final(self).height() == new_height,
            r is Ok ==> forall|k: int|
                0 <= k < final(self).bytes().len() ==> #[trigger] final(self).bytes()[k]
                    == grown_byte(
                    old(self).bytes(),
                    old(self).width() / 2,
                    old(self).height(),
                    new_width as int / 2,
                    k,
                ),
            r is Ok ==> forall|x: int, y: int|
                0 <= x < new_width && 0 <= y < new_height ==> #[trigger] final(self).pixel(x, y)
                    == if x < old(self).width() && y < old(self).height() {
                    old(self).pixel(x, y)
                } else {
                    0u8
                },
    {
        let old_width = self.size.width;
        let old_height = self.size.height;
        if new_width % 2 != 0 || new_height % 2 != 0 {
            return Err(CanvasError::InvalidDimensions);
        }
        if new_width < old_width || new_height < old_height {
            return Err(CanvasError::ShrinkNotAllowed);
        }
        proof {
            lemma_u32_product(new_width, new_height);
        }
        if (new_width as u64) * (new_height as u64) > MAX_PIXELS {
            return Err(CanvasError::ResizeFailed);
        }
        let row_size_old: usize = (old_width / 2) as usize;
        let row_size_new: usize = (new_width / 2) as usize;
        let rows_old: usize = old_height as usize;
        let rows_new: usize = new_height as usize;
        let ghost before = self.data@;
        proof {
            lemma_byte_len_rows(old_width as int, old_height as int);
            lemma_byte_len_rows(new_width as int, new_height as int);
        }
        let mut grown: Vec<u8> = Vec::new();
        let mut r: usize = 0;
        while r < rows_new
            invariant
                self.wf(),
                self.data@ == before,
                before.len() == rows_old * row_size_old,
                row_size_old == old_width / 2,
                row_size_new == new_width / 2,
                rows_old == old_height,
                rows_new == new_height,
                rows_new * row_size_new <= MAX_PIXELS,
                0 <= r <= rows_new,
                grown@.len() == r * row_size_new,
                forall|k: int|
                    0 <= k < grown@.len() ==> #[trigger] grown@[k] == grown_byte(
                        before,
                        row_size_old as int,
                        rows_old as int,
                        row_size_new as int,
                        k,
                    ),
            decreases rows_new - r,
        {
            let mut c: usize = 0;
            proof {
                if row_size_new > 0 {
                    lemma_row_col(r as int, 0, rows_new as int, row_size_new as int);
                } else {
                    assert(r * row_size_new == 0) by (nonlinear_arith)
                        requires
                            row_size_new == 0,
                    ;
                    assert((r + 1) * row_size_new == 0) by (nonlinear_arith)
                        requires
                            row_size_new == 0,
                    ;
                }
            }
            while c < row_size_new
                invariant
                    self.wf(),
                    self.data@ == before,
                    before.len() == rows_old * row_size_old,
                    row_size_old == old_width / 2,
                    row_size_new == new_width / 2,
                    rows_old == old_height,
                    rows_new == new_height,
                    0 <= r < rows_new,
                    r * row_size_new + row_size_new <= MAX_PIXELS,
                    (r + 1) * row_size_new == r * row_size_new + row_size_new,
                    0 <= c <= row_size_new,
                    grown@.len() == r * row_size_new + c,
                    forall|k: int|
                        0 <= k < grown@.len() ==> #[trigger] grown@[k] == grown_byte(
                            before,
                            row_size_old as int,
                            rows_old as int,
                            row_size_new as int,
                            k,
                        ),
                decreases row_size_new - c,
            {
                proof {
                    lemma_byte_row_col(r as int, c as int, row_size_new as int);
                }
                let b: u8 = if r < rows_old && c < row_size_old {
                    proof {
                        lemma_row_col(r as int, c as int, rows_old as int, row_size_old as int);
                    }
                    self.data[r * row_size_old + c]
                } else {
                    0u8
                };
                grown.push(b);
                c = c + 1;
            }
            r = r + 1;
        }
        proof {
            assert(rows_new * row_size_new == new_height * (new_width / 2));
        }
        self.data = grown;
        self.size = CanvasSize { width: new_width, height: new_height };
        proof {
            assert forall|x: int, y: int|
                0 <= x < new_width && 0 <= y < new_height implies #[trigger] self.pixel(x, y) == if x
                < old_width && y < old_height {
                old(self).pixel(x, y)
            } else {
                0u8
            } by {
                lemma_split_index(x, y, new_width as int);
                lemma_byte_row_col(y, x / 2, row_size_new as int);
                lemma_row_col(y, x / 2, new_height as int, row_size_new as int);
                if x < old_width && y < old_height {
                    lemma_split_index(x, y, old_width as int);
                }
            }
        }
        Ok(())
    }

    /// Every palette index, row-major.
    pub fn read_all(&self) -> (r: Vec<u8>)
        requires
            self.wf(),
        ensures
            r@ == self.pixels(),
    {
        let n: usize = self.data.len();
        let mut out: Vec<u8> = Vec::new();
        let mut k: usize = 0;
        proof {
            lemma_even_product(self.width(), self.height());
        }
        while k < n
            invariant
                k <= n,
                n == self.bytes().len(),
                self.wf(),
                out@.len() == 2 * k,
                forall|i: int| 0 <= i < 2 * k ==> out@[i] == nibble_at(self.bytes(), i),
            decreases n - k,
        {
            let (hi, lo) = crate::codec::unpack(self.data[k]);
            out.push(hi);
            out.push(lo);
            k = k + 1;
        }
        assert(out@ =~= self.pixels());
        out
    }
}

/// Byte `k` of a buffer whose rows are `row_bytes` wide lies in the span that
/// whitening `[x_min, x_max] × [y_min, y_max]` clears: in each covered row,
/// `(x_max - x_min) / 2 + 1` bytes from the one holding column `x_min`.
pub open spec fn whitened(k: int, row_bytes: int, x_min: int, y_min: int, x_max: int, y_max: int) -> bool {
    let first = x_min / 2;
    let span = (x_max - x_min) / 2 + 1;
    &&& y_min <= k / row_bytes <= y_max
    &&& first <= k % row_bytes < first + span
}

/// Byte `k` of a buffer grown from rows of `old_row_bytes` bytes and
/// `old_height` rows to rows of `new_row_bytes` bytes: the old byte at the
/// same row and column, or zero where there was none.
pub open spec fn grown_byte(
    prev: Seq<u8>,
    old_row_bytes: int,
    old_height: int,
    new_row_bytes: int,
    k: int,
) -> u8 {
    let r = k / new_row_bytes;
    let c = k % new_row_bytes;
    if r < old_height && c < old_row_bytes {
        prev[r * old_row_bytes + c]
    } else {
        0u8
    }
}

/// Row `r`, column `c` of a grid `cols` wide lies before the end of `rows` rows.
proof fn lemma_row_col(r: int, c: int, rows: int, cols: int)
    requires
        0 <= r < rows,
        0 <= c < cols,
    ensures
        0 <= r * cols,
        r * cols + c < rows * cols,
        r * cols + cols <= rows * cols,
        (r + 1) * cols == r * cols + cols,
{
    assert(0 <= r * cols) by (nonlinear_arith)
        requires
            0 <= r,
            0 <= c < cols,
    ;
    assert((r + 1) * cols == r * cols + cols) by (nonlinear_arith);
    assert((r + 1) * cols <= rows * cols) by (nonlinear_arith)
        requires
            r + 1 <= rows,
            0 <= cols,
    ;
}

/// The buffer of an even-width canvas holds `width / 2` bytes per row.
proof fn lemma_byte_len_rows(width: int, height: int)
    requires
        width % 2 == 0,
        0 <= width,
        0 <= height,
    ensures
        byte_len(width, height) == height * (width / 2),
        0 <= height * (width / 2),
{
    let hw = width / 2;
    assert(width * height == 2 * (height * hw)) by (nonlinear_arith)
        requires
            width == 2 * hw,
    ;
    assert(0 <= height * hw) by (nonlinear_arith)
        requires
            0 <= height,
            0 <= hw,
    ;
}

/// Row and column of a byte of a buffer whose rows are `row_bytes` wide.
proof fn lemma_byte_row_col(r: int, c: int, row_bytes: int)
    requires
        0 <= r,
        0 <= c < row_bytes,
    ensures
        (r * row_bytes + c) / row_bytes == r,
        (r * row_bytes + c) % row_bytes == c,
{
    lemma_fundamental_div_mod_converse(r * row_bytes + c, row_bytes, r, c);
}

/// A byte index is determined by its row and column.
proof fn lemma_same_row_col(k: int, r: int, c: int, row_bytes: int)
    requires
        0 <= k,
        0 < row_bytes,
        k / row_bytes == r,
        k % row_bytes == c,
    ensures
        k == r * row_bytes + c,
{
    lemma_fundamental_div_mod(k, row_bytes);
    assert(row_bytes * r == r * row_bytes) by (nonlinear_arith);
}

/// Reading the rectangle that spans the whole canvas gives every pixel in
/// row-major order, as a full read does.
pub proof fn lemma_full_region_is_all(c: &Canvas)
    requires
        c.wf(),
        c.width() > 0,
        c.height() > 0,
    ensures
        c.region(0, 0, c.width() - 1, c.height() - 1) == c.pixels(),
{
    let w = c.width();
    assert forall|k: int| 0 <= k < w * c.height() implies #[trigger] c.pixels()[k] == c.region(
        0,
        0,
        w - 1,
        c.height() - 1,
    )[k] by {
        lemma_fundamental_div_mod(k, w);
        assert(w * (k / w) == (k / w) * w) by (nonlinear_arith);
    }
    assert(c.region(0, 0, w - 1, c.height() - 1) =~= c.pixels());
}

/// Two pixels that share a byte are written independently: after writing
/// one and then the other, each holds the value written to it and every
/// other pixel is as it was.
pub proof fn lemma_shared_byte_writes(c0: &Canvas, c1: &Canvas, c2: &Canvas, y: int, x: int, a: u8, b: u8)
    requires
        c0.wf(),
        0 <= y < c0.height(),
        0 <= x,
        x + 1 < c0.width(),
        x % 2 == 0,
        c1.width() == c0.width() && c1.height() == c0.height(),
        c2.width() == c0.width() && c2.height() == c0.height(),
        c1.pixels() == c0.pixels().update(y * c0.width() + x, a),
        c2.pixels() == c1.pixels().update(y * c0.width() + x + 1, b),
    ensures
        (y * c0.width() + x) / 2 == (y * c0.width() + x + 1) / 2,
        c2.pixels()[y * c0.width() + x] == a,
        c2.pixels()[y * c0.width() + x + 1] == b,
        forall|i: int|
            0 <= i < c0.pixels().len() && i != y * c0.width() + x && i != y * c0.width() + x + 1
                ==> #[trigger] c2.pixels()[i] == c0.pixels()[i],
{
    lemma_split_index(x, y, c0.width());
    lemma_split_index(x + 1, y, c0.width());
    lemma_index_in_buffer(x + 1, y, c0.width(), c0.height());
}

/// Distinct coordinates inside a row width have distinct linear indices.
proof fn lemma_unique_index(x1: int, y1: int, x2: int, y2: int, w: int)
    requires
        0 <= x1 < w,
        0 <= x2 < w,
        0 <= y1,
        0 <= y2,
        y1 * w + x1 == y2 * w + x2,
    ensures
        x1 == x2,
        y1 == y2,
{
    lemma_fundamental_div_mod_converse(y1 * w + x1, w, y1, x1);
    lemma_fundamental_div_mod_converse(y2 * w + x2, w, y2, x2);
}

} // verus!
