use vstd::prelude::*;

use crate::expander::{expand_text_region, expanded_spec};
use crate::geometry::{DiagonalOrientation, ExpandedRegion, Rect};
use crate::raster::{white_spec, RasterBuffer, RasterError, Rgb};

verus! {

/// A rendered raster to be placed with its top-left pixel at `(x, y)`.
#[derive(Clone, Debug)]
pub struct ReplacementPatch {
    pub raster: RasterBuffer,
    pub x: usize,
    pub y: usize,
    pub diagonal: DiagonalOrientation,
}

/// Pixel `(i, j)` of `bg` once `patch` is placed at `(x, y)`.
pub open spec fn replaced_px(
    bg: RasterBuffer,
    patch: RasterBuffer,
    x: int,
    y: int,
    i: int,
    j: int,
) -> Rgb {
    if x <= i < x + patch.width && y <= j < y + patch.height {
        patch.px(i - x, j - y)
    } else {
        bg.px(i, j)
    }
}

/// `a` and `b` have the same size and the same pixels.
pub open spec fn same_image(a: RasterBuffer, b: RasterBuffer) -> bool {
    &&& a.width == b.width
    &&& a.height == b.height
    &&& forall|i: int, j: int| a.in_bounds(i, j) ==> #[trigger] a.px(i, j) == b.px(i, j)
}

/// Pixel `(i, j)` of `bg` with the `w` by `h` rectangle at `(x, y)` blanked.
pub open spec fn cleaned_px(
    bg: RasterBuffer,
    x: int,
    y: int,
    w: int,
    h: int,
    i: int,
    j: int,
) -> Rgb {
    if x <= i < x + w && y <= j < y + h {
        white_spec()
    } else {
        bg.px(i, j)
    }
}

/// `r` is `bg` with the `w` by `h` rectangle at `(x, y)` blanked.
pub open spec fn is_cleaned(
    r: RasterBuffer,
    bg: RasterBuffer,
    x: int,
    y: int,
    w: int,
    h: int,
) -> bool {
    &&& r.wf()
    &&& r.width == bg.width
    &&& r.height == bg.height
    &&& forall|i: int, j: int|
        r.in_bounds(i, j) ==> #[trigger] r.px(i, j) == cleaned_px(bg, x, y, w, h, i, j)
}

/// Replaces the sub-region of `background` at `(x, y)` by `region`, splicing
/// the left, top, bottom and right panels of `background` around it.
pub fn replace_region(
    background: &RasterBuffer,
    region: &RasterBuffer,
    x: usize,
    y: usize,
) -> (r: Result<
    RasterBuffer,
    RasterError,
>)
    requires
        background.wf(),
        region.wf(),
    ensures
        r is Ok <==> (x + region.width <= background.width && y + region.height
            <= background.height),
        r is Err ==> r == Err::<RasterBuffer, RasterError>(RasterError::OutOfBounds),
        r matches Ok(out) ==> {
            &&& out.wf()
            &&& out.width == background.width
            &&& out.height == background.height
            &&& forall|i: int, j: int|
                out.in_bounds(i, j) ==> #[trigger] out.px(i, j) == replaced_px(
                    *background,
                    *region,
                    x as int,
                    y as int,
                    i,
                    j,
                )
        },
{
    let fw = background.width;
    let fh = background.height;
    let w = region.width;
    let h = region.height;
    if x > fw || w > fw - x || y > fh || h > fh - y {
        return Err(RasterError::OutOfBounds);
    }
    let left = match background.crop(0, 0, x, fh) {
        Ok(p) => p,
        Err(e) => return Err(e),
    };
    let top = match background.crop(x, 0, w, y) {
        Ok(p) => p,
        Err(e) => return Err(e),
    };
    let bottom = match background.crop(x, y + h, w, fh - (y + h)) {
        Ok(p) => p,
        Err(e) => return Err(e),
    };
    let right = match background.crop(x + w, 0, fw - (x + w), fh) {
        Ok(p) => p,
        Err(e) => return Err(e),
    };
    let upper = match top.vconcat(region) {
        Ok(p) => p,
        Err(e) => return Err(e),
    };
    let middle = match upper.vconcat(&bottom) {
        Ok(p) => p,
        Err(e) => return Err(e),
    };
    let with_left = match left.hconcat(&middle) {
        Ok(p) => p,
        Err(e) => return Err(e),
    };
    let out = match with_left.hconcat(&right) {
        Ok(p) => p,
        Err(e) => return Err(e),
    };
    assert forall|i: int, j: int| out.in_bounds(i, j) implies #[trigger] out.px(i, j)
        == replaced_px(*background, *region, x as int, y as int, i, j) by {
        if i < x + w {
            assert(out.px(i, j) == with_left.px(i, j));
            if i >= x {
                assert(with_left.px(i, j) == middle.px(i - x, j));
                if j < y + h {
                    assert(middle.px(i - x, j) == upper.px(i - x, j));
                    if j < y {
                        assert(upper.px(i - x, j) == top.px(i - x, j));
                    } else {
                        assert(upper.px(i - x, j) == region.px(i - x, j - y));
                    }
                } else {
                    assert(middle.px(i - x, j) == bottom.px(i - x, j - (y + h)));
                }
            } else {
                assert(with_left.px(i, j) == left.px(i, j));
            }
        } else {
            assert(out.px(i, j) == right.px(i - (x + w), j));
        }
    }
    Ok(out)
}

/// Blanks the `w` by `h` rectangle at `(x, y)` of `background` to white.
pub fn clean_region(
    background: &RasterBuffer,
    x: usize,
    y: usize,
    w: usize,
    h: usize,
) -> (r: Result<
    RasterBuffer,
    RasterError,
>)
    requires
        background.wf(),
    ensures
        r is Ok <==> (x + w <= background.width && y + h <= background.height),
        r is Err ==> r == Err::<RasterBuffer, RasterError>(RasterError::OutOfBounds),
        r matches Ok(out) ==> is_cleaned(out, *background, x as int, y as int, w as int, h as int),
{
    let patch = RasterBuffer::blank(w, h);
    let r = replace_region(background, &patch, x, y);
    match r {
        Ok(out) => {
            assert forall|i: int, j: int| out.in_bounds(i, j) implies #[trigger] out.px(i, j)
                == cleaned_px(*background, x as int, y as int, w as int, h as int, i, j) by {
                if x <= i < x + w && y <= j < y + h {
                    assert(patch.px(i - x, j - y) == white_spec());
                }
            }
            Ok(out)
        },
        Err(e) => Err(e),
    }
}

/// After blanking, the blanked rectangle read back is a white raster of the
/// patch's size, and every pixel outside it is the input's.
pub proof fn lemma_clean_round_trip(
    bg: RasterBuffer,
    out: RasterBuffer,
    window: RasterBuffer,
    x: int,
    y: int,
    w: int,
    h: int,
)
    requires
        bg.wf(),
        0 <= x,
        0 <= y,
        0 <= w,
        0 <= h,
        x + w <= bg.width,
        y + h <= bg.height,
        is_cleaned(out, bg, x, y, w, h),
        window.is_window_of(&out, x, y, w, h),
    ensures
        window.width == w,
        window.height == h,
        window.is_uniform(white_spec()),
        forall|i: int, j: int|
            bg.in_bounds(i, j) && !(x <= i < x + w && y <= j < y + h) ==> #[trigger] out.px(i, j)
                == bg.px(i, j),
{
    assert forall|i: int, j: int| window.in_bounds(i, j) implies #[trigger] window.px(i, j)
        == white_spec() by {
        assert(window.px(i, j) == out.px(x + i, y + j));
        assert(out.in_bounds(x + i, y + j));
    }
    assert forall|i: int, j: int|
        bg.in_bounds(i, j) && !(x <= i < x + w && y <= j < y + h) implies #[trigger] out.px(i, j)
        == bg.px(i, j) by {
        assert(out.in_bounds(i, j));
    }
}

/// Blanking the same rectangle a second time changes nothing.
pub proof fn lemma_clean_idempotent(
    bg: RasterBuffer,
    once: RasterBuffer,
    twice: RasterBuffer,
    x: int,
    y: int,
    w: int,
    h: int,
)
    requires
        bg.wf(),
        is_cleaned(once, bg, x, y, w, h),
        is_cleaned(twice, once, x, y, w, h),
    ensures
        same_image(twice, once),
{
    assert forall|i: int, j: int| twice.in_bounds(i, j) implies #[trigger] twice.px(i, j)
        == once.px(i, j) by {
        assert(once.in_bounds(i, j));
    }
}

/// Pixel `(i, j)` of `img` once the blank patch of each region is placed at
/// its expanded origin, the regions taken in order; each patch has the size
/// of the region it was detected as.
pub open spec fn cleaned_page_px(img: RasterBuffer, regions: Seq<Rect>, i: int, j: int) -> Rgb
    decreases regions.len(),
{
    if regions.len() == 0 {
        img.px(i, j)
    } else {
        let s = regions.last();
        let e = expanded_spec(img, s).rect;
        if e.x <= i < e.x + s.width && e.y <= j < e.y + s.height {
            white_spec()
        } else {
            cleaned_page_px(img, regions.drop_last(), i, j)
        }
    }
}

/// Pixel `(i, j)` lies in the blank patch placed for region `s`: the
/// region's detected size at its grown origin.
pub open spec fn in_blank_patch(img: RasterBuffer, s: Rect, i: int, j: int) -> bool {
    let e = expanded_spec(img, s).rect;
    e.x <= i < e.x + s.width && e.y <= j < e.y + s.height
}

/// A cleaned page is white inside every blank patch and the input page
/// everywhere else.
pub proof fn lemma_clean_page_round_trip(img: RasterBuffer, regions: Seq<Rect>, i: int, j: int)
    ensures
        cleaned_page_px(img, regions, i, j) == if exists|k: int|
            0 <= k < regions.len() && #[trigger] in_blank_patch(img, regions[k], i, j) {
            white_spec()
        } else {
            img.px(i, j)
        },
    decreases regions.len(),
{
    if regions.len() > 0 {
        let pre = regions.drop_last();
        lemma_clean_page_round_trip(img, pre, i, j);
        let last = regions.len() - 1;
        if exists|k: int| 0 <= k < pre.len() && #[trigger] in_blank_patch(img, pre[k], i, j) {
            let k = choose|k: int| 0 <= k < pre.len() && #[trigger] in_blank_patch(img, pre[k], i, j);
            assert(regions[k] == pre[k]);
        }
        if exists|k: int| 0 <= k < regions.len() && #[trigger] in_blank_patch(img, regions[k], i, j) {
            let k = choose|k: int|
                0 <= k < regions.len() && #[trigger] in_blank_patch(img, regions[k], i, j);
            if k < last {
                assert(pre[k] == regions[k]);
            }
        } else {
            assert(!in_blank_patch(img, regions[last], i, j));
            assert forall|k: int| 0 <= k < pre.len() implies !#[trigger] in_blank_patch(
                img,
                pre[k],
                i,
                j,
            ) by {
                assert(pre[k] == regions[k]);
            }
        }
    }
}

/// Why a page could not be composited.
#[derive(Clone, Copy, Debug, PartialEq, Eq, Structural)]
pub enum CompositeError {
    /// A region or patch does not lie fully inside the page.
    RegionOutsideImage,
    /// Replacement was asked for without text.
    MissingText,
    /// There are more texts than detected regions.
    TextWithoutRegion,
}

/// A pixel-for-pixel copy of `img`.
pub fn copy_image(img: &RasterBuffer) -> (r: RasterBuffer)
    requires
        img.wf(),
    ensures
        r.wf(),
        same_image(r, *img),
{
    match img.crop(0, 0, img.width, img.height) {
        Ok(c) => {
            assert forall|i: int, j: int| c.in_bounds(i, j) implies #[trigger] c.px(i, j) == img.px(
                i,
                j,
            ) by {
                assert(c.px(i, j) == img.px(0 + i, 0 + j));
            }
            c
        },
        Err(_) => {
            assert(false);
            RasterBuffer::blank(0, 0)
        },
    }
}

/// Pixel `(i, j)` of `img` once the patches are placed in order, each over
/// the result of the ones before.
pub open spec fn pasted_px(img: RasterBuffer, patches: Seq<ReplacementPatch>, i: int, j: int) -> Rgb
    decreases patches.len(),
{
    if patches.len() == 0 {
        img.px(i, j)
    } else {
        let p = patches.last();
        if p.x <= i < p.x + p.raster.width && p.y <= j < p.y + p.raster.height {
            p.raster.px(i - p.x, j - p.y)
        } else {
            pasted_px(img, patches.drop_last(), i, j)
        }
    }
}

/// The region that each detected box grows to on `img`, in order.
pub fn expand_regions(img: &RasterBuffer, regions: &Vec<Rect>) -> (r: Result<
    Vec<ExpandedRegion>,
    CompositeError,
>)
    requires
        img.wf(),
        img.width <= i32::MAX,
        img.height <= i32::MAX,
    ensures
        r is Ok <==> forall|k: int|
            0 <= k < regions@.len() ==> (#[trigger] regions@[k]).inside(
                img.width as int,
                img.height as int,
            ),
        r is Err ==> r == Err::<Vec<ExpandedRegion>, CompositeError>(
            CompositeError::RegionOutsideImage,
        ),
        r matches Ok(v) ==> v@ == regions@.map_values(|s: Rect| expanded_spec(*img, s)),
{
    let mut v: Vec<ExpandedRegion> = Vec::new();
    let mut k: usize = 0;
    while k < regions.len()
        invariant
            img.wf(),
            img.width <= i32::MAX,
            img.height <= i32::MAX,
            k <= regions@.len(),
            forall|m: int|
                0 <= m < k ==> (#[trigger] regions@[m]).inside(img.width as int, img.height as int),
            v@ == regions@.subrange(0, k as int).map_values(|s: Rect| expanded_spec(*img, s)),
        decreases regions@.len() - k,
    {
        let s = regions[k];
        if s.x < 0 || s.y < 0 || s.width <= 0 || s.height <= 0 || s.x as i64 + s.width as i64
            > img.width as i64 || s.y as i64 + s.height as i64 > img.height as i64 {
            return Err(CompositeError::RegionOutsideImage);
        }
        v.push(expand_text_region(img, s));
        assert(v@ =~= regions@.subrange(0, k + 1).map_values(|s: Rect| expanded_spec(*img, s)));
        k = k + 1;
    }
    assert(regions@.subrange(0, regions@.len() as int) =~= regions@);
    Ok(v)
}

/// A page, its detected regions and, for replacement, the text for each.
#[derive(Clone, Debug)]
pub struct Replacer {
    pub regions: Vec<Rect>,
    pub text: Option<Vec<String>>,
    pub original_image: RasterBuffer,
    pub padding: u16,
}

impl Replacer {
    pub fn new(
        regions: Vec<Rect>,
        text: Option<Vec<String>>,
        original_image: RasterBuffer,
        padding: Option<u16>,
    ) -> (r: Replacer)
        ensures
            r.regions == regions,
            r.text == text,
            r.original_image == original_image,
            r.padding == (match padding {
                Some(p) => p,
                None => crate::DEFAULT_PADDING,
            }),
    {
        let padding = match padding {
            Some(p) => p,
            None => crate::DEFAULT_PADDING,
        };
        Replacer { regions, text, original_image, padding }
    }

    /// The page with each detected region blanked: every region is grown on the
    /// unmodified page, and a white patch of the region's detected size is placed
    /// at the grown region's origin, one region after another.
    pub fn clean_page(&self) -> (r: Result<RasterBuffer, CompositeError>)
        requires
            self.original_image.wf(),
            self.original_image.width <= i32::MAX,
            self.original_image.height <= i32::MAX,
        ensures
            r is Ok <==> forall|k: int|
                0 <= k < self.regions@.len() ==> (#[trigger] self.regions@[k]).inside(
                    self.original_image.width as int,
                    self.original_image.height as int,
                ),
            r is Err ==> r == Err::<RasterBuffer, CompositeError>(CompositeError::RegionOutsideImage),
            r matches Ok(out) ==> {
                &&& out.wf()
                &&& out.width == self.original_image.width
                &&& out.height == self.original_image.height
                &&& forall|i: int, j: int|
                    out.in_bounds(i, j) ==> #[trigger] out.px(i, j) == cleaned_page_px(
                        self.original_image,
                        self.regions@,
                        i,
                        j,
                    )
            },
    {
        let img = &self.original_image;
        let regions = &self.regions;
        let mut page = copy_image(img);
        let mut k: usize = 0;
        assert forall|i: int, j: int| page.in_bounds(i, j) implies #[trigger] page.px(i, j)
            == cleaned_page_px(*img, regions@.subrange(0, 0), i, j) by {}
        while k < regions.len()
            invariant
                *img == self.original_image,
                *regions == self.regions,
                img.wf(),
                img.width <= i32::MAX,
                img.height <= i32::MAX,
                k <= regions@.len(),
                forall|m: int|
                    0 <= m < k ==> (#[trigger] regions@[m]).inside(img.width as int, img.height as int),
                page.wf(),
                page.width == img.width,
                page.height == img.height,
                forall|i: int, j: int|
                    page.in_bounds(i, j) ==> #[trigger] page.px(i, j) == cleaned_page_px(
                        *img,
                        regions@.subrange(0, k as int),
                        i,
                        j,
                    ),
            decreases regions@.len() - k,
        {
            let s = regions[k];
            if s.x < 0 || s.y < 0 || s.width <= 0 || s.height <= 0 || s.x as i64 + s.width as i64
                > img.width as i64 || s.y as i64 + s.height as i64 > img.height as i64 {
                return Err(CompositeError::RegionOutsideImage);
            }
            let e: ExpandedRegion = expand_text_region(img, s);
            let cleaned = clean_region(
                &page,
                e.rect.x as usize,
                e.rect.y as usize,
                s.width as usize,
                s.height as usize,
            );
            let ghost prev = page;
            match cleaned {
                Ok(p) => {
                    page = p;
                },
                Err(_) => {
                    return Err(CompositeError::RegionOutsideImage);
                },
            }
            let ghost sub = regions@.subrange(0, k + 1);
            assert(sub.drop_last() =~= regions@.subrange(0, k as int));
            assert(sub.last() == s);
            assert forall|i: int, j: int| page.in_bounds(i, j) implies #[trigger] page.px(i, j)
                == cleaned_page_px(*img, sub, i, j) by {
                assert(prev.in_bounds(i, j));
            }
            k = k + 1;
        }
        assert(regions@.subrange(0, regions@.len() as int) =~= regions@);
        Ok(page)
    }

    /// The page with each patch placed in turn, each over the result of the
    /// ones before. Fails without the text that the patches show.
    pub fn replace_text_regions(&self, patches: &Vec<ReplacementPatch>) -> (r: Result<
        RasterBuffer,
        CompositeError,
    >)
        requires
            self.original_image.wf(),
            forall|k: int| 0 <= k < patches@.len() ==> (#[trigger] patches@[k]).raster.wf(),
        ensures
            self.text is None ==> r == Err::<RasterBuffer, CompositeError>(
                CompositeError::MissingText,
            ),
            self.text is Some ==> (r is Ok <==> forall|k: int|
                0 <= k < patches@.len() ==> {
                    let p = #[trigger] patches@[k];
                    &&& p.x + p.raster.width <= self.original_image.width
                    &&& p.y + p.raster.height <= self.original_image.height
                }),
            self.text is Some && r is Err ==> r == Err::<RasterBuffer, CompositeError>(
                CompositeError::RegionOutsideImage,
            ),
            r matches Ok(out) ==> {
                &&& out.wf()
                &&& out.width == self.original_image.width
                &&& out.height == self.original_image.height
                &&& forall|i: int, j: int|
                    out.in_bounds(i, j) ==> #[trigger] out.px(i, j) == pasted_px(
                        self.original_image,
                        patches@,
                        i,
                        j,
                    )
            },
    {
        if self.text.is_none() {
            return Err(CompositeError::MissingText);
        }
        let img = &self.original_image;
        let mut page = copy_image(img);
        let mut k: usize = 0;
        assert forall|i: int, j: int| page.in_bounds(i, j) implies #[trigger] page.px(i, j)
            == pasted_px(*img, patches@.subrange(0, 0), i, j) by {}
        while k < patches.len()
            invariant
                self.text is Some,
                *img == self.original_image,
                img.wf(),
                forall|m: int| 0 <= m < patches@.len() ==> (#[trigger] patches@[m]).raster.wf(),
                k <= patches@.len(),
                forall|m: int|
                    0 <= m < k ==> (#[trigger] patches@[m]).x + patches@[m].raster.width <= img.width
                        && patches@[m].y + patches@[m].raster.height <= img.height,
                page.wf(),
                page.width == img.width,
                page.height == img.height,
                forall|i: int, j: int|
                    page.in_bounds(i, j) ==> #[trigger] page.px(i, j) == pasted_px(
                        *img,
                        patches@.subrange(0, k as int),
                        i,
                        j,
                    ),
            decreases patches@.len() - k,
        {
            let p = &patches[k];
            let ghost prev = page;
            match replace_region(&page, &p.raster, p.x, p.y) {
                Ok(next) => {
                    page = next;
                },
                Err(_) => {
                    return Err(CompositeError::RegionOutsideImage);
                },
            }
            let ghost sub = patches@.subrange(0, k + 1);
            assert(sub.drop_last() =~= patches@.subrange(0, k as int));
            assert(sub.last() == *p);
            assert forall|i: int, j: int| page.in_bounds(i, j) implies #[trigger] page.px(i, j)
                == pasted_px(*img, sub, i, j) by {
                assert(prev.in_bounds(i, j));
            }
            k = k + 1;
        }
        assert(patches@.subrange(0, patches@.len() as int) =~= patches@);
        Ok(page)
    }

    /// The grown region of each text, in order: the `k`-th text goes in the
    /// `k`-th detected region.
    pub fn expanded_text_regions(&self) -> (r: Result<Vec<ExpandedRegion>, CompositeError>)
        requires
            self.original_image.wf(),
            self.original_image.width <= i32::MAX,
            self.original_image.height <= i32::MAX,
        ensures
            self.text is None ==> r == Err::<Vec<ExpandedRegion>, CompositeError>(
                CompositeError::MissingText,
            ),
            self.text matches Some(t) && t@.len() > self.regions@.len() ==> r == Err::<
                Vec<ExpandedRegion>,
                CompositeError,
            >(CompositeError::TextWithoutRegion),
            self.text matches Some(t) && t@.len() <= self.regions@.len() ==> {
                let used = self.regions@.subrange(0, self.text->Some_0@.len() as int);
                &&& r is Ok <==> forall|k: int|
                    0 <= k < used.len() ==> (#[trigger] used[k]).inside(
                        self.original_image.width as int,
                        self.original_image.height as int,
                    )
                &&& r is Err ==> r == Err::<Vec<ExpandedRegion>, CompositeError>(
                    CompositeError::RegionOutsideImage,
                )
                &&& r matches Ok(v) ==> v@ == used.map_values(
                    |s: Rect| expanded_spec(self.original_image, s),
                )
            },
    {
        let n = match &self.text {
            None => {
                return Err(CompositeError::MissingText);
            },
            Some(t) => t.len(),
        };
        if n > self.regions.len() {
            return Err(CompositeError::TextWithoutRegion);
        }
        let mut used: Vec<Rect> = Vec::new();
        let mut k: usize = 0;
        while k < n
            invariant
                n <= self.regions@.len(),
                k <= n,
                used@ == self.regions@.subrange(0, k as int),
            decreases n - k,
        {
            used.push(self.regions[k]);
            k = k + 1;
            assert(used@ =~= self.regions@.subrange(0, k as int));
        }
        expand_regions(&self.original_image, &used)
    }
}

} // verus!
