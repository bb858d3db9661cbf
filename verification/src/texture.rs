//! CPU-side RGBA images: creation, per-pixel access, sub-images and row
//! flipping.

use vstd::prelude::*;

verus! {

/// An RGBA image kept in CPU memory: `bytes` holds four bytes per pixel,
/// row by row, starting at the top-left corner.
#[derive(Clone)]
pub struct Image {
    pub bytes: Vec<u8>,
    pub width: u16,
    pub height: u16,
}

/// The number of pixels of a `width` x `height` image.
pub open spec fn pixel_count(width: int, height: int) -> int {
    width * height
}

/// The four bytes of pixel `i` in a row-major RGBA buffer.
pub open spec fn pixel_of(bytes: Seq<u8>, i: int) -> Seq<u8> {
    bytes.subrange(4 * i, 4 * i + 4)
}

/// `bytes` with pixel `i` replaced by `color`.
pub open spec fn with_pixel(bytes: Seq<u8>, i: int, color: Seq<u8>) -> Seq<u8> {
    bytes.subrange(0, 4 * i) + color + bytes.subrange(4 * i + 4, bytes.len() as int)
}

/// `count` pixels, each of them `color`.
pub open spec fn filled(color: Seq<u8>, count: nat) -> Seq<u8>
    decreases count,
{
    if count == 0 {
        Seq::empty()
    } else {
        filled(color, (count - 1) as nat) + color
    }
}

/// The pixels of `colors`, one after the other.
pub open spec fn flatten_pixels(colors: Seq<[u8; 4]>) -> Seq<u8>
    decreases colors.len(),
{
    if colors.len() == 0 {
        Seq::empty()
    } else {
        flatten_pixels(colors.drop_last()) + colors.last()@
    }
}

/// `count` rows of `row_len` bytes each; row `r` is read from `src` at
/// `first + r * stride`.
pub open spec fn gather_rows(src: Seq<u8>, first: int, stride: int, row_len: int, count: nat) -> Seq<
    u8,
>
    decreases count,
{
    if count == 0 {
        Seq::empty()
    } else {
        let start = first + (count - 1) * stride;
        gather_rows(src, first, stride, row_len, (count - 1) as nat) + src.subrange(
            start,
            start + row_len,
        )
    }
}

/// A rectangle of whole pixels: `x`, `y` is its top-left corner, `w`, `h`
/// its size.
#[derive(Clone, Copy, Debug, PartialEq, Eq, Structural)]
pub struct PixelRect {
    pub x: usize,
    pub y: usize,
    pub w: usize,
    pub h: usize,
}

/// Every row of `rect`, read from a buffer of `len` bytes whose rows are
/// `width` pixels wide, lies inside that buffer.
pub open spec fn rect_in_buffer(len: int, width: int, rect: PixelRect) -> bool {
    rect.h == 0 || (rect.y + rect.h - 1) * (4 * width) + 4 * rect.x + 4 * rect.w <= len
}

/// The bytes of the pixels inside `rect`, row by row, of an image whose rows
/// are `width` pixels wide.
pub open spec fn sub_image_bytes(bytes: Seq<u8>, width: int, rect: PixelRect) -> Seq<u8> {
    gather_rows(bytes, rect.y * (4 * width) + 4 * rect.x, 4 * width, 4 * rect.w, rect.h as nat)
}

/// The rows of a `width` x `height` image in reverse order, bottom row
/// first.
pub open spec fn flipped_bytes(bytes: Seq<u8>, width: int, height: int) -> Seq<u8> {
    gather_rows(bytes, (height - 1) * (4 * width), -(4 * width), 4 * width, height as nat)
}

impl Image {
    /// The number of pixels that `width` and `height` describe.
    pub open spec fn spec_pixel_count(&self) -> int {
        pixel_count(self.width as int, self.height as int)
    }

    /// The buffer holds at least one RGBA quadruple per pixel.
    pub open spec fn holds_pixels(&self) -> bool {
        self.bytes@.len() >= 4 * self.spec_pixel_count()
    }

    /// The buffer holds exactly one RGBA quadruple per pixel.
    pub open spec fn well_formed(&self) -> bool {
        self.bytes@.len() == 4 * self.spec_pixel_count()
    }

    /// The index of pixel (`x`, `y`) in row-major order.
    pub open spec fn index_of(&self, x: int, y: int) -> int {
        y * self.width + x
    }

    /// Creates an empty image.
    pub fn empty() -> (r: Image)
        ensures
            r.width == 0,
            r.height == 0,
            r.bytes@ == Seq::<u8>::empty(),
    {
        Image { width: 0, height: 0, bytes: Vec::new() }
    }

    /// Creates a `width` x `height` image whose every pixel is `color`.
    pub fn gen_image_color(width: u16, height: u16, color: [u8; 4]) -> (r: Image)
        requires
            4 * pixel_count(width as int, height as int) <= usize::MAX,
        ensures
            r.width == width,
            r.height == height,
            r.bytes@ == filled(color@, pixel_count(width as int, height as int) as nat),
            r.well_formed(),
    {
        proof {
            lemma_pixel_count_bound(width as int, height as int);
            lemma_filled_pixels(color@, pixel_count(width as int, height as int) as nat);
        }
        let count = width as usize * height as usize;
        let mut bytes: Vec<u8> = Vec::with_capacity(count * 4);
        let mut i: usize = 0;
        while i < count
            invariant
                i <= count,
                bytes@ == filled(color@, i as nat),
            decreases count - i,
        {
            let ghost before = bytes@;
            bytes.push(color[0]);
            bytes.push(color[1]);
            bytes.push(color[2]);
            bytes.push(color[3]);
            assert(bytes@ =~= before + color@);
            i = i + 1;
        }
        Image { width, height, bytes }
    }

    /// Returns the width of this image.
    pub fn width(&self) -> (r: usize)
        ensures
            r == self.width,
    {
        self.width as usize
    }

    /// Returns the height of this image.
    pub fn height(&self) -> (r: usize)
        ensures
            r == self.height,
    {
        self.height as usize
    }
}

impl Image {
    /// Returns the pixel at (`x`, `y`).
    pub fn get_pixel(&self, x: u32, y: u32) -> (r: [u8; 4])
        requires
            self.holds_pixels(),
            self.index_of(x as int, y as int) < self.spec_pixel_count(),
        ensures
            r@ == pixel_of(self.bytes@, self.index_of(x as int, y as int)),
    {
        let i = self.pixel_index(x, y);
        let r = [self.bytes[4 * i], self.bytes[4 * i + 1], self.bytes[4 * i + 2], self.bytes[4 * i + 3]];
        assert(r@ =~= pixel_of(self.bytes@, i as int));
        r
    }

    /// Sets the pixel at (`x`, `y`) to `color`.
    pub fn set_pixel(&mut self, x: u32, y: u32, color: [u8; 4])
        requires
            old(self).holds_pixels(),
            old(self).index_of(x as int, y as int) < old(self).spec_pixel_count(),
        ensures
            final(self).width == old(self).width,
            final(self).height == old(self).height,
            final(self).bytes@ == with_pixel(
                old(self).bytes@,
                old(self).index_of(x as int, y as int),
                color@,
            ),
    {
        let i = self.pixel_index(x, y);
        self.set_pixel_at(i, color);
    }

    /// Sets pixel `i`, counted in row-major order, to `color`: the write
    /// that indexing the pixel slice of this image does.
    pub fn set_pixel_at(&mut self, i: usize, color: [u8; 4])
        requires
            old(self).holds_pixels(),
            i < old(self).spec_pixel_count(),
        ensures
            final(self).width == old(self).width,
            final(self).height == old(self).height,
            final(self).bytes@ == with_pixel(old(self).bytes@, i as int, color@),
    {
        let _len = self.bytes.len();
        let ghost before = self.bytes@;
        self.bytes.set(4 * i, color[0]);
        self.bytes.set(4 * i + 1, color[1]);
        self.bytes.set(4 * i + 2, color[2]);
        self.bytes.set(4 * i + 3, color[3]);
        assert(self.bytes@ =~= with_pixel(before, i as int, color@));
    }

    /// The row-major index of pixel (`x`, `y`), computed in `u32` as the
    /// pixel accessors do.
    fn pixel_index(&self, x: u32, y: u32) -> (r: usize)
        requires
            self.holds_pixels(),
            self.index_of(x as int, y as int) < self.spec_pixel_count(),
        ensures
            r == self.index_of(x as int, y as int),
            4 * r + 4 <= self.bytes.len(),
    {
        proof {
            lemma_pixel_count_bound(self.width as int, self.height as int);
            assert(0 <= y * self.width) by (nonlinear_arith)
                requires
                    0 <= y,
                    0 <= self.width,
            ;
        }
        let w = self.width as u32;
        let i = y * w + x;
        i as usize
    }
}

impl Image {
    /// Replaces the pixels of this image by `colors`, one per pixel in
    /// row-major order.
    pub fn update(&mut self, colors: &[[u8; 4]])
        requires
            old(self).spec_pixel_count() == colors@.len(),
            4 * colors@.len() <= usize::MAX,
        ensures
            final(self).width == old(self).width,
            final(self).height == old(self).height,
            final(self).bytes@ == flatten_pixels(colors@),
            final(self).well_formed(),
    {
        proof {
            lemma_flatten_pixels(colors@);
        }
        let n = colors.len();
        let mut bytes: Vec<u8> = Vec::with_capacity(n * 4);
        let mut i: usize = 0;
        while i < n
            invariant
                i <= n,
                n == colors@.len(),
                bytes@ == flatten_pixels(colors@.subrange(0, i as int)),
            decreases n - i,
        {
            let c = colors[i];
            let ghost before = bytes@;
            bytes.push(c[0]);
            bytes.push(c[1]);
            bytes.push(c[2]);
            bytes.push(c[3]);
            proof {
                let next = colors@.subrange(0, i + 1);
                assert(next.drop_last() =~= colors@.subrange(0, i as int));
                assert(bytes@ =~= before + c@);
            }
            i = i + 1;
        }
        assert(colors@.subrange(0, n as int) =~= colors@);
        self.bytes = bytes;
    }

    /// Returns the pixels of this image, one RGBA quadruple each.
    pub fn get_image_data(&self) -> (r: Vec<[u8; 4]>)
        requires
            self.holds_pixels(),
        ensures
            r@.len() == self.spec_pixel_count(),
            forall|i: int| 0 <= i < r@.len() ==> #[trigger] r@[i]@ == pixel_of(self.bytes@, i),
    {
        proof {
            lemma_pixel_count_bound(self.width as int, self.height as int);
        }
        let n = self.width as usize * self.height as usize;
        let len = self.bytes.len();
        let mut r: Vec<[u8; 4]> = Vec::with_capacity(n);
        let mut i: usize = 0;
        while i < n
            invariant
                i <= n,
                n == self.spec_pixel_count(),
                len == self.bytes@.len(),
                4 * n <= len,
                r@.len() == i,
                forall|j: int| 0 <= j < i ==> #[trigger] r@[j]@ == pixel_of(self.bytes@, j),
            decreases n - i,
        {
            let p = [self.bytes[4 * i], self.bytes[4 * i + 1], self.bytes[4 * i + 2], self.bytes[4 * i + 3]];
            assert(p@ =~= pixel_of(self.bytes@, i as int));
            r.push(p);
            i = i + 1;
        }
        r
    }
}

impl Image {
    /// Returns the image made of the pixels inside `rect`.
    ///
    /// A row of `rect` that runs past the right edge continues on the next
    /// row of this image, as the rows are read from the flat buffer.
    pub fn sub_image(&self, rect: PixelRect) -> (r: Image)
        requires
            rect_in_buffer(self.bytes@.len() as int, self.width as int, rect),
            4 * rect.w * rect.h <= usize::MAX,
            4 * rect.w <= usize::MAX,
            rect.h == 0 || rect.y + rect.h - 1 <= usize::MAX,
        ensures
            r.width == rect.w as u16,
            r.height == rect.h as u16,
            r.bytes@ == sub_image_bytes(self.bytes@, self.width as int, rect),
    {
        let width = rect.w;
        let height = rect.h;
        proof {
            assert(0 <= width * height <= 4 * width * height && width * height * 4 == 4 * width
                * height) by (nonlinear_arith)
                requires
                    0 <= width,
                    0 <= height,
            ;
        }
        let mut bytes: Vec<u8> = Vec::with_capacity(width * height * 4);
        let x_start = rect.x;
        let y_start = rect.y;
        let src_stride = self.width as usize * 4;
        let dst_stride = width * 4;
        let len = self.bytes.len();
        let ghost first = y_start * src_stride + 4 * x_start;
        let mut row: usize = 0;
        while row < height
            invariant
                row <= height,
                len == self.bytes@.len(),
                src_stride == 4 * self.width,
                dst_stride == 4 * width,
                first == y_start * src_stride + 4 * x_start,
                width == rect.w,
                height == rect.h,
                x_start == rect.x,
                y_start == rect.y,
                rect_in_buffer(len as int, self.width as int, rect),
                rect.h == 0 || rect.y + rect.h - 1 <= usize::MAX,
                bytes@ == gather_rows(self.bytes@, first, src_stride as int, dst_stride as int, row as nat),
            decreases height - row,
        {
            proof {
                lemma_row_start(y_start as int, row as int, height as int, src_stride as int,
                    4 * x_start, dst_stride as int, len as int);
            }
            let src_offset = (y_start + row) * src_stride + x_start * 4;
            let ghost before = bytes@;
            let mut k: usize = 0;
            while k < dst_stride
                invariant
                    k <= dst_stride,
                    src_offset + dst_stride <= len,
                    len == self.bytes@.len(),
                    bytes@ == before + self.bytes@.subrange(src_offset as int, src_offset + k),
                decreases dst_stride - k,
            {
                bytes.push(self.bytes[src_offset + k]);
                assert(self.bytes@.subrange(src_offset as int, src_offset + k + 1) =~= self.bytes@.subrange(src_offset as int, src_offset + k).push(self.bytes@[src_offset + k]));
                k = k + 1;
            }
            row = row + 1;
        }
        Image {
            width: #[verifier::truncate] (width as u16),
            height: #[verifier::truncate] (height as u16),
            bytes,
        }
    }

    /// The pixel bytes with the rows in reverse order, bottom row first, as
    /// a PNG file stores them.
    pub fn flipped_rows(&self) -> (r: Vec<u8>)
        requires
            self.holds_pixels(),
        ensures
            r@ == flipped_bytes(self.bytes@, self.width as int, self.height as int),
    {
        proof {
            lemma_pixel_count_bound(self.width as int, self.height as int);
        }
        let width = self.width as usize;
        let height = self.height as usize;
        let len = self.bytes.len();
        let row_len = width * 4;
        let mut bytes: Vec<u8> = Vec::with_capacity(width * height * 4);
        let ghost first = (height - 1) * row_len;
        let mut y: usize = 0;
        while y < height
            invariant
                y <= height,
                height == self.height,
                width == self.width,
                row_len == 4 * width,
                len == self.bytes@.len(),
                4 * (width * height) <= len,
                first == (height - 1) * row_len,
                bytes@ == gather_rows(self.bytes@, first, -row_len, row_len as int, y as nat),
            decreases height - y,
        {
            proof {
                assert((height - y - 1) * row_len + row_len <= 4 * (width * height)
                    && 0 <= (height - y - 1) * row_len
                    && first + y * (-row_len) == (height - y - 1) * row_len) by (nonlinear_arith)
                    requires
                        y < height,
                        row_len == 4 * width,
                        first == (height - 1) * row_len,
                        0 <= width,
                ;
            }
            let src_row = (height - y - 1) * row_len;
            let ghost before = bytes@;
            let mut k: usize = 0;
            while k < row_len
                invariant
                    k <= row_len,
                    src_row + row_len <= len,
                    len == self.bytes@.len(),
                    bytes@ == before + self.bytes@.subrange(src_row as int, src_row + k),
                decreases row_len - k,
            {
                bytes.push(self.bytes[src_row + k]);
                assert(self.bytes@.subrange(src_row as int, src_row + k + 1) =~= self.bytes@.subrange(src_row as int, src_row + k).push(self.bytes@[src_row + k]));
                k = k + 1;
            }
            y = y + 1;
        }
        bytes
    }
}

/// The text of decimal digit `d`.
pub open spec fn digit_text(d: nat) -> Seq<char> {
    if d == 0 {
        seq!['0']
    } else if d == 1 {
        seq!['1']
    } else if d == 2 {
        seq!['2']
    } else if d == 3 {
        seq!['3']
    } else if d == 4 {
        seq!['4']
    } else if d == 5 {
        seq!['5']
    } else if d == 6 {
        seq!['6']
    } else if d == 7 {
        seq!['7']
    } else if d == 8 {
        seq!['8']
    } else {
        seq!['9']
    }
}

/// `n` written in decimal, without leading zeros.
pub open spec fn decimal(n: nat) -> Seq<char>
    decreases n,
{
    if n < 10 {
        digit_text(n)
    } else {
        decimal(n / 10) + digit_text(n % 10)
    }
}

/// The text `Image { width: W, height: H, bytes.len(): L }` that describes
/// an image by its sizes.
pub open spec fn image_description(width: nat, height: nat, len: nat) -> Seq<char> {
    "Image { width: "@ + decimal(width) + ", height: "@ + decimal(height) + ", bytes.len(): "@
        + decimal(len) + " }"@
}

fn digit(d: usize) -> (r: &'static str)
    requires
        d < 10,
    ensures
        r@ == digit_text(d as nat),
{
    proof {
        reveal_strlit("0");
        reveal_strlit("1");
        reveal_strlit("2");
        reveal_strlit("3");
        reveal_strlit("4");
        reveal_strlit("5");
        reveal_strlit("6");
        reveal_strlit("7");
        reveal_strlit("8");
        reveal_strlit("9");
    }
    match d {
        0 => "0",
        1 => "1",
        2 => "2",
        3 => "3",
        4 => "4",
        5 => "5",
        6 => "6",
        7 => "7",
        8 => "8",
        _ => "9",
    }
}

/// Appends `n` in decimal to `text`.
fn append_decimal(text: &mut String, n: usize)
    ensures
        final(text)@ == old(text)@ + decimal(n as nat),
    decreases n,
{
    if n >= 10 {
        append_decimal(text, n / 10);
    }
    text.append(digit(n % 10));
    assert(n < 10 ==> n % 10 == n);
}

impl Image {
    /// Describes this image by its width, height and buffer length, leaving
    /// out the pixel bytes.
    pub fn debug_string(&self) -> (r: String)
        ensures
            r@ == image_description(self.width as nat, self.height as nat, self.bytes@.len()),
    {
        let mut text = String::from_str("Image { width: ");
        append_decimal(&mut text, self.width as usize);
        text.append(", height: ");
        append_decimal(&mut text, self.height as usize);
        text.append(", bytes.len(): ");
        append_decimal(&mut text, self.bytes.len());
        text.append(" }");
        text
    }
}

/// Where row `row` of a rectangle starts, and that it ends inside the
/// buffer.
proof fn lemma_row_start(y: int, row: int, h: int, stride: int, x4: int, w4: int, len: int)
    requires
        0 <= y,
        0 <= row < h,
        0 <= stride,
        0 <= x4,
        0 <= w4,
        (y + h - 1) * stride + x4 + w4 <= len,
    ensures
        0 <= (y + row) * stride,
        (y + row) * stride + x4 + w4 <= len,
        (y + row) * stride + x4 == y * stride + x4 + row * stride,
{
    assert(0 <= (y + row) * stride <= (y + h - 1) * stride
        && (y + row) * stride == y * stride + row * stride) by (nonlinear_arith)
        requires
            0 <= y,
            0 <= row < h,
            0 <= stride,
    ;
}

/// A `width` x `height` pixel count fits in a `u32`.
pub proof fn lemma_pixel_count_bound(width: int, height: int)
    requires
        0 <= width <= 0xffff,
        0 <= height <= 0xffff,
    ensures
        0 <= pixel_count(width, height) <= 0xfffe0001,
{
    assert(0 <= width * height <= 0xffff * 0xffff) by (nonlinear_arith)
        requires
            0 <= width <= 0xffff,
            0 <= height <= 0xffff,
    ;
}

} // verus!

verus! {

/// Where row `r` starts when rows begin at `first` and are `stride` apart.
pub open spec fn row_start(first: int, stride: int, r: int) -> int {
    first + r * stride
}

/// Row `r` of a buffer whose rows are `row_len` bytes long.
pub open spec fn row_of(bytes: Seq<u8>, row_len: int, r: int) -> Seq<u8> {
    bytes.subrange(r * row_len, r * row_len + row_len)
}

/// Every row that `gather_rows` reads lies inside `src`.
pub open spec fn rows_inside(src: Seq<u8>, first: int, stride: int, row_len: int, count: nat) -> bool {
    forall|r: int|
        0 <= r < count ==> 0 <= #[trigger] row_start(first, stride, r) && row_start(first, stride, r)
            + row_len <= src.len()
}

/// `gather_rows` is `count` rows of `row_len` bytes, row `r` copied from
/// `src` at `row_start(first, stride, r)`.
pub proof fn lemma_gather_rows(src: Seq<u8>, first: int, stride: int, row_len: int, count: nat)
    requires
        row_len >= 0,
        rows_inside(src, first, stride, row_len, count),
    ensures
        gather_rows(src, first, stride, row_len, count).len() == count * row_len,
        forall|r: int|
            0 <= r < count ==> #[trigger] row_of(gather_rows(src, first, stride, row_len, count), row_len, r)
                == src.subrange(row_start(first, stride, r), row_start(first, stride, r) + row_len),
    decreases count,
{
    if count > 0 {
        let c1 = (count - 1) as nat;
        assert(rows_inside(src, first, stride, row_len, c1));
        lemma_gather_rows(src, first, stride, row_len, c1);
        let g0 = gather_rows(src, first, stride, row_len, c1);
        let g = gather_rows(src, first, stride, row_len, count);
        let s = row_start(first, stride, c1 as int);
        assert(0 <= s && s + row_len <= src.len());
        assert(count * row_len == c1 * row_len + row_len) by (nonlinear_arith)
            requires
                c1 == count - 1,
        ;
        assert forall|r: int| 0 <= r < count implies #[trigger] row_of(g, row_len, r) == src.subrange(
            row_start(first, stride, r),
            row_start(first, stride, r) + row_len,
        ) by {
            if r < c1 {
                assert(0 <= r * row_len && r * row_len + row_len <= c1 * row_len) by (nonlinear_arith)
                    requires
                        0 <= r < c1,
                        row_len >= 0,
                ;
                assert(row_of(g, row_len, r) =~= row_of(g0, row_len, r));
            } else {
                assert(row_of(g, row_len, r) =~= src.subrange(s, s + row_len));
            }
        }
    } else {
        assert(count * row_len == 0) by (nonlinear_arith)
            requires
                count == 0,
        ;
    }
}

/// Two buffers of `count` rows of `row_len` bytes are equal when each of
/// their rows is.
pub proof fn lemma_rows_determine(a: Seq<u8>, b: Seq<u8>, row_len: int, count: nat)
    requires
        row_len >= 0,
        a.len() == count * row_len,
        b.len() == count * row_len,
        forall|r: int| 0 <= r < count ==> #[trigger] row_of(a, row_len, r) == row_of(b, row_len, r),
    ensures
        a == b,
{
    if row_len > 0 {
        assert forall|i: int| 0 <= i < a.len() implies a[i] == b[i] by {
            let r = i / row_len;
            let k = i % row_len;
            assert(i == row_len * r + k && 0 <= k < row_len && 0 <= r < count) by (nonlinear_arith)
                requires
                    row_len > 0,
                    0 <= i < count * row_len,
                    r == i / row_len,
                    k == i % row_len,
            ;
            assert(r * row_len + k == i && 0 <= r * row_len && r * row_len + row_len <= count
                * row_len) by (nonlinear_arith)
                requires
                    i == row_len * r + k,
                    0 <= r < count,
                    row_len > 0,
            ;
            assert(row_of(a, row_len, r)[k] == row_of(b, row_len, r)[k]);
        }
    }
    assert(a =~= b);
}

/// Reading a pixel after writing it gives back the written colour, and
/// every other pixel keeps its value; the buffer keeps its length.
pub proof fn lemma_set_then_get(bytes: Seq<u8>, i: int, color: Seq<u8>, j: int)
    requires
        0 <= i,
        4 * i + 4 <= bytes.len(),
        0 <= j,
        4 * j + 4 <= bytes.len(),
        color.len() == 4,
    ensures
        with_pixel(bytes, i, color).len() == bytes.len(),
        pixel_of(with_pixel(bytes, i, color), j) == if i == j {
            color
        } else {
            pixel_of(bytes, j)
        },
{
    let b = with_pixel(bytes, i, color);
    if i == j {
        assert(pixel_of(b, j) =~= color);
    } else {
        assert(pixel_of(b, j) =~= pixel_of(bytes, j));
    }
}

/// An image filled with one colour has that colour at every pixel.
pub proof fn lemma_filled_pixels(color: Seq<u8>, count: nat)
    requires
        color.len() == 4,
    ensures
        filled(color, count).len() == 4 * count,
        forall|i: int| 0 <= i < count ==> #[trigger] pixel_of(filled(color, count), i) == color,
    decreases count,
{
    if count > 0 {
        let c1 = (count - 1) as nat;
        lemma_filled_pixels(color, c1);
        let f0 = filled(color, c1);
        let f = filled(color, count);
        assert forall|i: int| 0 <= i < count implies #[trigger] pixel_of(f, i) == color by {
            if i < c1 {
                assert(pixel_of(f, i) =~= pixel_of(f0, i));
            } else {
                assert(pixel_of(f, i) =~= color);
            }
        }
    }
}

/// The buffer written from a list of colours holds colour `i` at pixel `i`.
pub proof fn lemma_flatten_pixels(colors: Seq<[u8; 4]>)
    ensures
        flatten_pixels(colors).len() == 4 * colors.len(),
        forall|i: int| 0 <= i < colors.len() ==> #[trigger] pixel_of(flatten_pixels(colors), i) == colors[i]@,
    decreases colors.len(),
{
    if colors.len() > 0 {
        let init = colors.drop_last();
        lemma_flatten_pixels(init);
        let f0 = flatten_pixels(init);
        let f = flatten_pixels(colors);
        assert forall|i: int| 0 <= i < colors.len() implies #[trigger] pixel_of(f, i) == colors[i]@ by {
            if i < init.len() {
                assert(pixel_of(f, i) =~= pixel_of(f0, i));
            } else {
                assert(pixel_of(f, i) =~= colors.last()@);
            }
        }
    }
}

/// Flipping the rows of an image twice gives back its bytes.
pub proof fn lemma_flip_twice(bytes: Seq<u8>, width: int, height: int)
    requires
        0 <= width,
        0 <= height,
        bytes.len() == 4 * pixel_count(width, height),
    ensures
        flipped_bytes(bytes, width, height).len() == bytes.len(),
        flipped_bytes(flipped_bytes(bytes, width, height), width, height) == bytes,
{
    let l = 4 * width;
    let first = (height - 1) * l;
    assert(bytes.len() == height * l) by (nonlinear_arith)
        requires
            bytes.len() == 4 * (width * height),
            l == 4 * width,
    ;
    assert forall|r: int| 0 <= r < height implies row_start(first, -l, r) == (height - 1 - r) * l
        && 0 <= #[trigger] row_start(first, -l, r) && row_start(first, -l, r) + l <= bytes.len() by {
        assert(row_start(first, -l, r) == (height - 1 - r) * l && 0 <= (height - 1 - r) * l && (
        height - 1 - r) * l + l == (height - r) * l && (height - r) * l <= height * l)
            by (nonlinear_arith)
            requires
                0 <= r < height,
                first == (height - 1) * l,
                l >= 0,
        ;
    }
    assert(rows_inside(bytes, first, -l, l, height as nat));
    lemma_gather_rows(bytes, first, -l, l, height as nat);
    let f = flipped_bytes(bytes, width, height);
    assert(rows_inside(f, first, -l, l, height as nat));
    lemma_gather_rows(f, first, -l, l, height as nat);
    let g = flipped_bytes(f, width, height);
    assert forall|r: int| 0 <= r < height implies #[trigger] row_of(g, l, r) == row_of(bytes, l, r) by {
        let r2 = height - 1 - r;
        assert(row_of(g, l, r) == f.subrange(row_start(first, -l, r), row_start(first, -l, r) + l));
        assert(row_start(first, -l, r) == r2 * l);
        assert(row_of(f, l, r2) == bytes.subrange(row_start(first, -l, r2), row_start(first, -l, r2) + l));
        assert(row_start(first, -l, r2) == r * l) by (nonlinear_arith)
            requires
                r2 == height - 1 - r,
                first == (height - 1) * l,
        ;
    }
    lemma_rows_determine(g, bytes, l, height as nat);
}

/// The sub-image covering a whole image is that image.
pub proof fn lemma_sub_image_whole(bytes: Seq<u8>, width: usize, height: usize)
    requires
        bytes.len() == 4 * pixel_count(width as int, height as int),
    ensures
        sub_image_bytes(bytes, width as int, PixelRect { x: 0, y: 0, w: width, h: height })
            == bytes,
{
    let rect = PixelRect { x: 0, y: 0, w: width, h: height };
    let l = 4 * width;
    assert(bytes.len() == height * l) by (nonlinear_arith)
        requires
            bytes.len() == 4 * (width * height),
            l == 4 * width,
    ;
    assert(rect.y * (4 * width) + 4 * rect.x == 0);
    assert forall|r: int| 0 <= r < height implies 0 <= #[trigger] row_start(0, l, r) && row_start(0, l, r)
        + l <= bytes.len() by {
        assert(0 <= r * l && r * l + l <= height * l) by (nonlinear_arith)
            requires
                0 <= r < height,
                l >= 0,
        ;
    }
    lemma_gather_rows(bytes, 0, l, l, height as nat);
    let s = sub_image_bytes(bytes, width as int, rect);
    assert forall|r: int| 0 <= r < height implies #[trigger] row_of(s, l, r) == row_of(bytes, l, r) by {
        assert(row_of(s, l, r) == bytes.subrange(row_start(0, l, r), row_start(0, l, r) + l));
    }
    lemma_rows_determine(s, bytes, l, height as nat);
}

/// Pixel (`c`, `r`) of a sub-image is pixel (`x + c`, `y + r`) of the image
/// it was taken from, when the rectangle lies inside that image.
pub proof fn lemma_sub_image_pixel(bytes: Seq<u8>, width: int, height: int, rect: PixelRect, c: int, r: int)
    requires
        0 <= width,
        bytes.len() >= 4 * pixel_count(width, height),
        rect.x + rect.w <= width,
        rect.y + rect.h <= height,
        0 <= c < rect.w,
        0 <= r < rect.h,
    ensures
        pixel_of(sub_image_bytes(bytes, width, rect), r * rect.w + c) == pixel_of(
            bytes,
            (rect.y + r) * width + rect.x + c,
        ),
{
    let l = 4 * width;
    let first = rect.y * l + 4 * rect.x;
    let rl = 4 * rect.w;
    assert forall|rr: int| 0 <= rr < rect.h implies 0 <= #[trigger] row_start(first, l, rr) && row_start(
        first,
        l,
        rr,
    ) + rl <= bytes.len() by {
        assert(0 <= row_start(first, l, rr) && row_start(first, l, rr) + rl <= 4 * (width * height))
            by (nonlinear_arith)
            requires
                0 <= rr < rect.h,
                rect.y + rect.h <= height,
                rect.x + rect.w <= width,
                0 <= rect.x,
                0 <= rect.y,
                first == rect.y * l + 4 * rect.x,
                l == 4 * width,
                rl == 4 * rect.w,
                row_start(first, l, rr) == first + rr * l,
        ;
    }
    lemma_gather_rows(bytes, first, l, rl, rect.h as nat);
    let s = sub_image_bytes(bytes, width, rect);
    let row = row_of(s, rl, r);
    assert(row == bytes.subrange(row_start(first, l, r), row_start(first, l, r) + rl));
    assert(0 <= r * rl && r * rl + rl <= rect.h * rl && 4 * (r * rect.w + c) == r * rl + 4 * c
        && row_start(first, l, r) + 4 * c == 4 * ((rect.y + r) * width + rect.x + c))
        by (nonlinear_arith)
        requires
            0 <= r < rect.h,
            0 <= c < rect.w,
            rl == 4 * rect.w,
            l == 4 * width,
            first == rect.y * l + 4 * rect.x,
            row_start(first, l, r) == first + r * l,
    ;
    assert(pixel_of(s, r * rect.w + c) =~= row.subrange(4 * c, 4 * c + 4));
}

/// Pixel (`x`, `y`) of the flipped rows is pixel (`x`, `height - 1 - y`)
/// of the image.
pub proof fn lemma_flipped_pixel(bytes: Seq<u8>, width: int, height: int, x: int, y: int)
    requires
        0 <= x < width,
        0 <= y < height,
        bytes.len() >= 4 * pixel_count(width, height),
    ensures
        pixel_of(flipped_bytes(bytes, width, height), y * width + x) == pixel_of(
            bytes,
            (height - 1 - y) * width + x,
        ),
{
    let l = 4 * width;
    let first = (height - 1) * l;
    assert forall|r: int| 0 <= r < height implies 0 <= #[trigger] row_start(first, -l, r)
        && row_start(first, -l, r) + l <= bytes.len() by {
        assert(0 <= row_start(first, -l, r) && row_start(first, -l, r) + l <= 4 * (width * height))
            by (nonlinear_arith)
            requires
                0 <= r < height,
                first == (height - 1) * l,
                l == 4 * width,
                width > 0,
                row_start(first, -l, r) == first + r * (-l),
        ;
    }
    lemma_gather_rows(bytes, first, -l, l, height as nat);
    let f = flipped_bytes(bytes, width, height);
    let row = row_of(f, l, y);
    assert(row == bytes.subrange(row_start(first, -l, y), row_start(first, -l, y) + l));
    assert(0 <= y * l && y * l + l <= height * l && 4 * (y * width + x) == y * l + 4 * x
        && row_start(first, -l, y) + 4 * x == 4 * ((height - 1 - y) * width + x)
        && height * l == 4 * (width * height))
        by (nonlinear_arith)
        requires
            0 <= y < height,
            0 <= x < width,
            l == 4 * width,
            first == (height - 1) * l,
            row_start(first, -l, y) == first + y * (-l),
    ;
    assert(pixel_of(f, y * width + x) =~= row.subrange(4 * x, 4 * x + 4));
}

/// Updating every pixel with one colour writes the same bytes as filling
/// the image with that colour.
pub proof fn lemma_uniform_update_is_fill(color: [u8; 4], count: nat)
    ensures
        flatten_pixels(Seq::new(count, |i: int| color)) == filled(color@, count),
    decreases count,
{
    if count > 0 {
        let c1 = (count - 1) as nat;
        lemma_uniform_update_is_fill(color, c1);
        assert(Seq::new(count, |i: int| color).drop_last() =~= Seq::new(c1, |i: int| color));
    }
}

/// A sub-image of a sub-image is the sub-image of the whole image at the
/// combined offset, when each rectangle lies inside the image it is taken
/// from.
pub proof fn lemma_sub_image_of_sub_image(
    bytes: Seq<u8>,
    width: usize,
    height: usize,
    outer: PixelRect,
    inner: PixelRect,
)
    requires
        bytes.len() >= 4 * pixel_count(width as int, height as int),
        outer.x + outer.w <= width,
        outer.y + outer.h <= height,
        inner.x + inner.w <= outer.w,
        inner.y + inner.h <= outer.h,
    ensures
        sub_image_bytes(sub_image_bytes(bytes, width as int, outer), outer.w as int, inner)
            == sub_image_bytes(
            bytes,
            width as int,
            PixelRect {
                x: (outer.x + inner.x) as usize,
                y: (outer.y + inner.y) as usize,
                w: inner.w,
                h: inner.h,
            },
        ),
{
    let l = 4 * width;
    let l1 = 4 * outer.w;
    let l2 = 4 * inner.w;
    let first1 = outer.y * l + 4 * outer.x;
    let first2 = inner.y * l1 + 4 * inner.x;
    let combined = PixelRect {
        x: (outer.x + inner.x) as usize,
        y: (outer.y + inner.y) as usize,
        w: inner.w,
        h: inner.h,
    };
    let first3 = combined.y * l + 4 * combined.x;
    assert(combined.x == outer.x + inner.x && combined.y == outer.y + inner.y);
    assert forall|r: int| 0 <= r < outer.h implies 0 <= #[trigger] row_start(first1, l, r) && row_start(
        first1,
        l,
        r,
    ) + l1 <= bytes.len() by {
        assert(0 <= row_start(first1, l, r) && row_start(first1, l, r) + l1 <= 4 * (width * height))
            by (nonlinear_arith)
            requires
                0 <= r < outer.h,
                outer.y + outer.h <= height,
                outer.x + outer.w <= width,
                0 <= outer.x,
                0 <= outer.y,
                first1 == outer.y * l + 4 * outer.x,
                l == 4 * width,
                l1 == 4 * outer.w,
                row_start(first1, l, r) == first1 + r * l,
        ;
    }
    lemma_gather_rows(bytes, first1, l, l1, outer.h as nat);
    let s1 = sub_image_bytes(bytes, width as int, outer);
    assert forall|r: int| 0 <= r < inner.h implies 0 <= #[trigger] row_start(first2, l1, r) && row_start(
        first2,
        l1,
        r,
    ) + l2 <= s1.len() by {
        assert(0 <= row_start(first2, l1, r) && row_start(first2, l1, r) + l2 <= outer.h * l1)
            by (nonlinear_arith)
            requires
                0 <= r < inner.h,
                inner.y + inner.h <= outer.h,
                inner.x + inner.w <= outer.w,
                0 <= inner.x,
                0 <= inner.y,
                first2 == inner.y * l1 + 4 * inner.x,
                l1 == 4 * outer.w,
                l2 == 4 * inner.w,
                row_start(first2, l1, r) == first2 + r * l1,
        ;
    }
    lemma_gather_rows(s1, first2, l1, l2, inner.h as nat);
    let s2 = sub_image_bytes(s1, outer.w as int, inner);
    assert forall|r: int| 0 <= r < combined.h implies 0 <= #[trigger] row_start(first3, l, r) && row_start(
        first3,
        l,
        r,
    ) + l2 <= bytes.len() by {
        assert(0 <= row_start(first3, l, r) && row_start(first3, l, r) + l2 <= 4 * (width * height))
            by (nonlinear_arith)
            requires
                0 <= r < inner.h,
                outer.y + inner.y + inner.h <= height,
                outer.x + inner.x + inner.w <= width,
                0 <= outer.x + inner.x,
                0 <= outer.y + inner.y,
                first3 == (outer.y + inner.y) * l + 4 * (outer.x + inner.x),
                l == 4 * width,
                l2 == 4 * inner.w,
                row_start(first3, l, r) == first3 + r * l,
        ;
    }
    lemma_gather_rows(bytes, first3, l, l2, inner.h as nat);
    let s3 = sub_image_bytes(bytes, width as int, combined);
    assert forall|r: int| 0 <= r < inner.h implies #[trigger] row_of(s2, l2, r) == row_of(s3, l2, r) by {
        let rr = inner.y + r;
        let a = rr * l1;
        assert(row_start(first2, l1, r) == a + 4 * inner.x && 0 <= rr < outer.h
            && row_start(first1, l, rr) + 4 * inner.x == row_start(first3, l, r) && 0 <= a
            && a + l1 <= outer.h * l1)
            by (nonlinear_arith)
            requires
                0 <= r < inner.h,
                0 <= inner.y,
                inner.y + inner.h <= outer.h,
                rr == inner.y + r,
                a == rr * l1,
                l1 >= 0,
                first2 == inner.y * l1 + 4 * inner.x,
                first1 == outer.y * l + 4 * outer.x,
                first3 == (outer.y + inner.y) * l + 4 * (outer.x + inner.x),
                row_start(first2, l1, r) == first2 + r * l1,
                row_start(first1, l, rr) == first1 + rr * l,
                row_start(first3, l, r) == first3 + r * l,
        ;
        assert(row_of(s1, l1, rr) == bytes.subrange(row_start(first1, l, rr), row_start(first1, l, rr) + l1));
        assert(row_of(s2, l2, r) == s1.subrange(row_start(first2, l1, r), row_start(first2, l1, r) + l2));
        assert(row_of(s3, l2, r) == bytes.subrange(row_start(first3, l, r), row_start(first3, l, r) + l2));
        assert(4 * inner.x + l2 <= l1);
        assert(row_of(s2, l2, r) =~= row_of(s1, l1, rr).subrange(4 * inner.x, 4 * inner.x + l2));
        assert(row_of(s2, l2, r) =~= row_of(s3, l2, r));
    }
    lemma_rows_determine(s2, s3, l2, inner.h as nat);
}

} // verus!
