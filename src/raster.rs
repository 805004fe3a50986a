use vstd::prelude::*;

verus! {

/// One RGB pixel, eight bits per channel.
#[derive(Clone, Copy, Debug, PartialEq, Eq, Structural)]
pub struct Rgb {
    pub r: u8,
    pub g: u8,
    pub b: u8,
}

/// The background colour of blank patches and text canvases.
pub open spec fn white_spec() -> Rgb {
    Rgb { r: 255, g: 255, b: 255 }
}

pub fn white() -> (p: Rgb)
    ensures
        p == white_spec(),
{
    Rgb { r: 255, g: 255, b: 255 }
}

/// Why a raster operation could not be carried out.
#[derive(Clone, Copy, Debug, PartialEq, Eq, Structural)]
pub enum RasterError {
    /// A requested sub-rectangle reaches outside the raster.
    OutOfBounds,
    /// Two rasters to be joined do not share the joined side's length.
    SizeMismatch,
}

/// A copy of one row of pixels.
fn copy_row(src: &Vec<Rgb>) -> (r: Vec<Rgb>)
    ensures
        r@ == src@,
{
    let mut r: Vec<Rgb> = Vec::new();
    let mut i: usize = 0;
    while i < src.len()
        invariant
            i <= src@.len(),
            r@ =~= src@.subrange(0, i as int),
        decreases src@.len() - i,
    {
        r.push(src[i]);
        i = i + 1;
        assert(r@ =~= src@.subrange(0, i as int));
    }
    assert(r@ =~= src@);
    r
}

/// A rectangular pixel buffer stored row by row: `rows[y][x]` is the pixel
/// in column `x` of row `y`.
#[derive(Clone, Debug)]
pub struct RasterBuffer {
    pub width: usize,
    pub height: usize,
    pub rows: Vec<Vec<Rgb>>,
}

impl RasterBuffer {
    /// There are `height` rows, each of `width` pixels.
    pub open spec fn wf(&self) -> bool {
        &&& self.rows@.len() == self.height
        &&& forall|y: int| 0 <= y < self.height ==> (#[trigger] self.rows@[y])@.len() == self.width
    }

    /// The pixel in column `x` of row `y`.
    pub open spec fn px(&self, x: int, y: int) -> Rgb {
        self.rows@[y]@[x]
    }

    pub open spec fn in_bounds(&self, x: int, y: int) -> bool {
        0 <= x < self.width && 0 <= y < self.height
    }

    /// Every pixel of `self` is `p`.
    pub open spec fn is_uniform(&self, p: Rgb) -> bool {
        forall|x: int, y: int| self.in_bounds(x, y) ==> #[trigger] self.px(x, y) == p
    }

    /// `self` shows the `w` by `h` window of `src` whose top-left pixel is `(x, y)`.
    pub open spec fn is_window_of(&self, src: &RasterBuffer, x: int, y: int, w: int, h: int) -> bool {
        &&& self.wf()
        &&& self.width == w
        &&& self.height == h
        &&& forall|i: int, j: int|
            0 <= i < w && 0 <= j < h ==> #[trigger] self.px(i, j) == src.px(x + i, y + j)
    }

    /// A `width` by `height` raster with every pixel set to `p`.
    pub fn filled(width: usize, height: usize, p: Rgb) -> (r: RasterBuffer)
        ensures
            r.wf(),
            r.width == width,
            r.height == height,
            r.is_uniform(p),
    {
        let mut rows: Vec<Vec<Rgb>> = Vec::new();
        let mut y: usize = 0;
        while y < height
            invariant
                y <= height,
                rows@.len() == y,
                forall|j: int| 0 <= j < y ==> (#[trigger] rows@[j])@.len() == width,
                forall|i: int, j: int| 0 <= j < y && 0 <= i < width ==> #[trigger] rows@[j]@[i] == p,
            decreases height - y,
        {
            let mut row: Vec<Rgb> = Vec::new();
            let mut x: usize = 0;
            while x < width
                invariant
                    x <= width,
                    row@.len() == x,
                    forall|i: int| 0 <= i < x ==> #[trigger] row@[i] == p,
                decreases width - x,
            {
                row.push(p);
                x = x + 1;
            }
            rows.push(row);
            y = y + 1;
        }
        let r = RasterBuffer { width, height, rows };
        assert forall|x: int, y: int| r.in_bounds(x, y) implies #[trigger] r.px(x, y) == p by {
            assert(rows@[y]@[x] == p);
        }
        r
    }

    /// A white raster of the given size.
    pub fn blank(width: usize, height: usize) -> (r: RasterBuffer)
        ensures
            r.wf(),
            r.width == width,
            r.height == height,
            r.is_uniform(white_spec()),
    {
        RasterBuffer::filled(width, height, white())
    }

    pub fn get_pixel(&self, x: usize, y: usize) -> (p: Rgb)
        requires
            self.wf(),
            x < self.width,
            y < self.height,
        ensures
            p == self.px(x as int, y as int),
    {
        self.rows[y][x]
    }

    /// The pixel at `(x, y)`, or `None` where that lies outside the raster.
    pub fn get_pixel_checked(&self, x: usize, y: usize) -> (p: Option<Rgb>)
        requires
            self.wf(),
        ensures
            p == (if self.in_bounds(x as int, y as int) {
                Some(self.px(x as int, y as int))
            } else {
                None
            }),
    {
        if x < self.width && y < self.height {
            Some(self.rows[y][x])
        } else {
            None
        }
    }

    /// A copy of the `w` by `h` window whose top-left pixel is `(x, y)`.
    pub fn crop(&self, x: usize, y: usize, w: usize, h: usize) -> (r: Result<RasterBuffer, RasterError>)
        requires
            self.wf(),
        ensures
            r is Ok <==> (x + w <= self.width && y + h <= self.height),
            r is Err ==> r == Err::<RasterBuffer, RasterError>(RasterError::OutOfBounds),
            r matches Ok(c) ==> c.is_window_of(self, x as int, y as int, w as int, h as int),
    {
        if x > self.width || w > self.width - x || y > self.height || h > self.height - y {
            return Err(RasterError::OutOfBounds);
        }
        let mut rows: Vec<Vec<Rgb>> = Vec::new();
        let mut j: usize = 0;
        while j < h
            invariant
                self.wf(),
                x + w <= self.width,
                y + h <= self.height,
                j <= h,
                rows@.len() == j,
                forall|k: int| 0 <= k < j ==> (#[trigger] rows@[k])@.len() == w,
                forall|i: int, k: int|
                    0 <= k < j && 0 <= i < w ==> #[trigger] rows@[k]@[i] == self.px(x + i, y + k),
            decreases h - j,
        {
            let src = &self.rows[y + j];
            let mut row: Vec<Rgb> = Vec::new();
            let mut i: usize = 0;
            while i < w
                invariant
                    self.wf(),
                    x + w <= self.width,
                    y + j < self.height,
                    src@ == self.rows@[y + j]@,
                    i <= w,
                    row@.len() == i,
                    forall|k: int| 0 <= k < i ==> #[trigger] row@[k] == self.px(x + k, y + j),
                decreases w - i,
            {
                row.push(src[x + i]);
                i = i + 1;
            }
            rows.push(row);
            j = j + 1;
        }
        let c = RasterBuffer { width: w, height: h, rows };
        assert forall|i: int, k: int| 0 <= i < w && 0 <= k < h implies #[trigger] c.px(i, k)
            == self.px(x + i, y + k) by {
            assert(rows@[k]@[i] == self.px(x + i, y + k));
        }
        Ok(c)
    }

    /// `self` above `below`; both must have the same width.
    pub fn vconcat(&self, below: &RasterBuffer) -> (r: Result<RasterBuffer, RasterError>)
        requires
            self.wf(),
            below.wf(),
        ensures
            r is Ok <==> self.width == below.width,
            r is Err ==> r == Err::<RasterBuffer, RasterError>(RasterError::SizeMismatch),
            r matches Ok(c) ==> {
                &&& c.wf()
                &&& c.width == self.width
                &&& c.height == self.height + below.height
                &&& forall|i: int, j: int|
                    0 <= i < c.width && 0 <= j < c.height ==> #[trigger] c.px(i, j) == if j
                        < self.height {
                        self.px(i, j)
                    } else {
                        below.px(i, j - self.height)
                    }
            },
    {
        if self.width != below.width {
            return Err(RasterError::SizeMismatch);
        }
        let mut rows: Vec<Vec<Rgb>> = Vec::new();
        let mut j: usize = 0;
        while j < self.height
            invariant
                self.wf(),
                j <= self.height,
                rows@.len() == j,
                forall|k: int| 0 <= k < j ==> (#[trigger] rows@[k])@ == self.rows@[k]@,
            decreases self.height - j,
        {
            rows.push(copy_row(&self.rows[j]));
            j = j + 1;
        }
        let mut j: usize = 0;
        while j < below.height
            invariant
                self.wf(),
                below.wf(),
                self.width == below.width,
                j <= below.height,
                rows@.len() == self.height + j,
                forall|k: int| 0 <= k < self.height ==> (#[trigger] rows@[k])@ == self.rows@[k]@,
                forall|k: int| 0 <= k < j ==> (#[trigger] rows@[self.height + k])@ == below.rows@[k]@,
            decreases below.height - j,
        {
            rows.push(copy_row(&below.rows[j]));
            j = j + 1;
        }
        let c = RasterBuffer { width: self.width, height: rows.len(), rows };
        assert forall|y: int| 0 <= y < c.height implies (#[trigger] c.rows@[y])@.len() == c.width by {
            if y >= self.height {
                assert(rows@[self.height + (y - self.height)]@ == below.rows@[y - self.height]@);
            }
        }
        assert forall|i: int, j: int| 0 <= i < c.width && 0 <= j < c.height implies #[trigger] c.px(
            i,
            j,
        ) == if j < self.height {
            self.px(i, j)
        } else {
            below.px(i, j - self.height)
        } by {
            if j >= self.height {
                assert(rows@[self.height + (j - self.height)]@ == below.rows@[j - self.height]@);
            }
        }
        Ok(c)
    }

    /// `self` to the left of `right`; both must have the same height.
    pub fn hconcat(&self, right: &RasterBuffer) -> (r: Result<RasterBuffer, RasterError>)
        requires
            self.wf(),
            right.wf(),
            self.width + right.width <= usize::MAX,
        ensures
            r is Ok <==> self.height == right.height,
            r is Err ==> r == Err::<RasterBuffer, RasterError>(RasterError::SizeMismatch),
            r matches Ok(c) ==> {
                &&& c.wf()
                &&& c.width == self.width + right.width
                &&& c.height == self.height
                &&& forall|i: int, j: int|
                    0 <= i < c.width && 0 <= j < c.height ==> #[trigger] c.px(i, j) == if i
                        < self.width {
                        self.px(i, j)
                    } else {
                        right.px(i - self.width, j)
                    }
            },
    {
        if self.height != right.height {
            return Err(RasterError::SizeMismatch);
        }
        let mut rows: Vec<Vec<Rgb>> = Vec::new();
        let mut j: usize = 0;
        while j < self.height
            invariant
                self.wf(),
                right.wf(),
                self.height == right.height,
                j <= self.height,
                rows@.len() == j,
                forall|k: int| 0 <= k < j ==> (#[trigger] rows@[k])@ == self.rows@[k]@ + right.rows@[k]@,
            decreases self.height - j,
        {
            let mut row: Vec<Rgb> = copy_row(&self.rows[j]);
            let tail = &right.rows[j];
            let mut i: usize = 0;
            while i < right.width
                invariant
                    self.wf(),
                    right.wf(),
                    j < right.height,
                    self.height == right.height,
                    tail@ == right.rows@[j as int]@,
                    i <= right.width,
                    row@ =~= self.rows@[j as int]@ + tail@.subrange(0, i as int),
                decreases right.width - i,
            {
                row.push(tail[i]);
                i = i + 1;
                assert(row@ =~= self.rows@[j as int]@ + tail@.subrange(0, i as int));
            }
            assert(tail@.subrange(0, right.width as int) =~= tail@);
            rows.push(row);
            j = j + 1;
        }
        let c = RasterBuffer { width: self.width + right.width, height: self.height, rows };
        assert forall|i: int, j: int| 0 <= i < c.width && 0 <= j < c.height implies #[trigger] c.px(
            i,
            j,
        ) == if i < self.width {
            self.px(i, j)
        } else {
            right.px(i - self.width, j)
        } by {
            assert(rows@[j]@ == self.rows@[j]@ + right.rows@[j]@);
        }
        Ok(c)
    }
}

/// The colour of letterbox padding.
pub open spec fn black_spec() -> Rgb {
    Rgb { r: 0, g: 0, b: 0 }
}

/// `img` padded with black on the right or at the bottom to a square whose
/// side is its longer side.
pub fn letterbox(img: &RasterBuffer) -> (r: RasterBuffer)
    requires
        img.wf(),
    ensures
        r.wf(),
        r.width == if img.width >= img.height {
            img.width
        } else {
            img.height
        },
        r.height == r.width,
        forall|x: int, y: int|
            r.in_bounds(x, y) ==> #[trigger] r.px(x, y) == if img.in_bounds(x, y) {
                img.px(x, y)
            } else {
                black_spec()
            },
{
    let black = Rgb { r: 0, g: 0, b: 0 };
    if img.height > img.width {
        let pad = RasterBuffer::filled(img.height - img.width, img.height, black);
        match img.hconcat(&pad) {
            Ok(r) => r,
            Err(_) => {
                assert(false);
                RasterBuffer::blank(0, 0)
            },
        }
    } else if img.width > img.height {
        let pad = RasterBuffer::filled(img.width, img.width - img.height, black);
        match img.vconcat(&pad) {
            Ok(r) => r,
            Err(_) => {
                assert(false);
                RasterBuffer::blank(0, 0)
            },
        }
    } else {
        match img.crop(0, 0, img.width, img.height) {
            Ok(r) => {
                assert forall|x: int, y: int| r.in_bounds(x, y) implies #[trigger] r.px(x, y)
                    == img.px(x, y) by {
                    assert(r.px(x, y) == img.px(0 + x, 0 + y));
                }
                r
            },
            Err(_) => {
                assert(false);
                RasterBuffer::blank(0, 0)
            },
        }
    }
}

} // verus!
