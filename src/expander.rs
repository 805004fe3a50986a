use vstd::prelude::*;

use crate::geometry::{DiagonalOrientation, ExpandedRegion, Rect};
use crate::raster::{RasterBuffer, Rgb};

verus! {

/// Number of diagonal steps from `(x, y)` (rightward or leftward, downward or
/// upward) that land inside the image on a pixel equal to `p`, stopping at the
/// first that does not.
pub open spec fn run_length(img: RasterBuffer, x: int, y: int, right: bool, down: bool, p: Rgb) -> nat
    decreases (if right {
        img.width - x
    } else {
        x + 1
    }),
{
    let nx = if right {
        x + 1
    } else {
        x - 1
    };
    let ny = if down {
        y + 1
    } else {
        y - 1
    };
    if img.in_bounds(nx, ny) && img.px(nx, ny) == p {
        1 + run_length(img, nx, ny, right, down, p)
    } else {
        0
    }
}

/// Run lengths from the four corners of `s`, each compared with its own
/// corner pixel: top-left, top-right, bottom-left, bottom-right.
pub open spec fn corner_runs(img: RasterBuffer, s: Rect) -> (nat, nat, nat, nat) {
    let l = s.x as int;
    let t = s.y as int;
    let r = s.x + s.width;
    let b = s.y + s.height;
    (
        run_length(img, l, t, false, false, img.px(l, t)),
        run_length(img, r, t, true, false, img.px(r, t)),
        run_length(img, l, b, false, true, img.px(l, b)),
        run_length(img, r, b, true, true, img.px(r, b)),
    )
}

/// The region grown from `s`: the pair of opposite corners whose runs add up
/// to less defines it, the anti-diagonal pair on a tie.
pub open spec fn expanded_spec(img: RasterBuffer, s: Rect) -> ExpandedRegion {
    let (tl, tr, bl, br) = corner_runs(img, s);
    if tl + br < tr + bl {
        ExpandedRegion {
            rect: Rect {
                x: (s.x - tl) as i32,
                y: (s.y - tl) as i32,
                width: (s.width + tl + br) as i32,
                height: (s.height + tl + br) as i32,
            },
            diagonal: DiagonalOrientation::TopLeftBottomRight,
        }
    } else {
        ExpandedRegion {
            rect: Rect {
                x: (s.x - bl) as i32,
                y: (s.y - tr) as i32,
                width: (s.width + tr + bl) as i32,
                height: (s.height + tr + bl) as i32,
            },
            diagonal: DiagonalOrientation::TopRightBottomLeft,
        }
    }
}

/// A run that takes at least one step ends inside the image.
proof fn lemma_run_ends_inside(img: RasterBuffer, x: int, y: int, right: bool, down: bool, p: Rgb)
    ensures
        ({
            let k = run_length(img, x, y, right, down, p) as int;
            k > 0 ==> img.in_bounds(
                if right {
                    x + k
                } else {
                    x - k
                },
                if down {
                    y + k
                } else {
                    y - k
                },
            )
        }),
    decreases (if right {
        img.width - x
    } else {
        x + 1
    }),
{
    let nx = if right {
        x + 1
    } else {
        x - 1
    };
    let ny = if down {
        y + 1
    } else {
        y - 1
    };
    if img.in_bounds(nx, ny) && img.px(nx, ny) == p {
        lemma_run_ends_inside(img, nx, ny, right, down, p);
    }
}

/// Steps diagonally from `(x, y)` while the next pixel equals `p`.
fn walk_run(img: &RasterBuffer, x: usize, y: usize, right: bool, down: bool, p: Rgb) -> (k: usize)
    requires
        img.wf(),
        x <= img.width,
        y <= img.height,
        img.width < usize::MAX,
        img.height < usize::MAX,
    ensures
        k == run_length(*img, x as int, y as int, right, down, p),
{
    let mut k: usize = 0;
    let mut cx: usize = x;
    let mut cy: usize = y;
    loop
        invariant
            img.wf(),
            cx <= img.width,
            cy <= img.height,
            img.width < usize::MAX,
            img.height < usize::MAX,
            right ==> cx == x + k,
            !right ==> cx + k == x,
            run_length(*img, x as int, y as int, right, down, p) == k + run_length(
                *img,
                cx as int,
                cy as int,
                right,
                down,
                p,
            ),
        decreases (if right {
            img.width - cx
        } else {
            cx as int
        }),
    {
        if (!right && cx == 0) || (!down && cy == 0) {
            return k;
        }
        let nx = if right {
            cx + 1
        } else {
            cx - 1
        };
        let ny = if down {
            cy + 1
        } else {
            cy - 1
        };
        match img.get_pixel_checked(nx, ny) {
            None => {
                return k;
            },
            Some(q) => {
                if q != p {
                    return k;
                }
            },
        }
        k = k + 1;
        cx = nx;
        cy = ny;
    }
}

/// Steps diagonally from the corner `(x, y)` while pixels equal the corner's
/// own; zero for a corner outside the image.
fn corner_run(img: &RasterBuffer, x: usize, y: usize, right: bool, down: bool) -> (k: usize)
    requires
        img.wf(),
        x <= img.width,
        y <= img.height,
        img.width < usize::MAX,
        img.height < usize::MAX,
        x == img.width ==> right,
        y == img.height ==> down,
    ensures
        k == run_length(*img, x as int, y as int, right, down, img.px(x as int, y as int)),
{
    match img.get_pixel_checked(x, y) {
        None => {
            assert(run_length(*img, x as int, y as int, right, down, img.px(x as int, y as int))
                == 0);
            0
        },
        Some(p) => walk_run(img, x, y, right, down, p),
    }
}

/// Grows `seed` along its diagonals to the extent of the uniformly coloured
/// shape around it, choosing the more conservative pair of opposite corners.
pub fn expand_text_region(img: &RasterBuffer, seed: Rect) -> (r: ExpandedRegion)
    requires
        img.wf(),
        seed.inside(img.width as int, img.height as int),
        img.width <= i32::MAX,
        img.height <= i32::MAX,
    ensures
        r == expanded_spec(*img, seed),
        r.rect.inside(img.width as int, img.height as int),
        r.rect.area() >= seed.area(),
        r.rect.x <= seed.x,
        r.rect.y <= seed.y,
{
    let l = seed.x as usize;
    let t = seed.y as usize;
    let rt = l + seed.width as usize;
    let b = t + seed.height as usize;
    let tl = corner_run(img, l, t, false, false);
    let tr = corner_run(img, rt, t, true, false);
    let bl = corner_run(img, l, b, false, true);
    let br = corner_run(img, rt, b, true, true);
    proof {
        lemma_expand_within_image(*img, seed);
        lemma_run_ends_inside(*img, l as int, t as int, false, false, img.px(l as int, t as int));
        lemma_run_ends_inside(*img, rt as int, t as int, true, false, img.px(rt as int, t as int));
        lemma_run_ends_inside(*img, l as int, b as int, false, true, img.px(l as int, b as int));
        lemma_run_ends_inside(*img, rt as int, b as int, true, true, img.px(rt as int, b as int));
    }
    if tl + br < tr + bl {
        ExpandedRegion {
            rect: Rect {
                x: (l - tl) as i32,
                y: (t - tl) as i32,
                width: (seed.width as usize + tl + br) as i32,
                height: (seed.height as usize + tl + br) as i32,
            },
            diagonal: DiagonalOrientation::TopLeftBottomRight,
        }
    } else {
        ExpandedRegion {
            rect: Rect {
                x: (l - bl) as i32,
                y: (t - tr) as i32,
                width: (seed.width as usize + tr + bl) as i32,
                height: (seed.height as usize + tr + bl) as i32,
            },
            diagonal: DiagonalOrientation::TopRightBottomLeft,
        }
    }
}

/// For a seed box inside the image, the expanded rectangle stays inside the
/// image and covers at least the seed's area.
pub proof fn lemma_expand_within_image(img: RasterBuffer, seed: Rect)
    requires
        img.wf(),
        seed.inside(img.width as int, img.height as int),
        img.width <= i32::MAX,
        img.height <= i32::MAX,
    ensures
        expanded_spec(img, seed).rect.inside(img.width as int, img.height as int),
        expanded_spec(img, seed).rect.area() >= seed.area(),
{
    let l = seed.x as int;
    let t = seed.y as int;
    let r = seed.x + seed.width;
    let b = seed.y + seed.height;
    lemma_run_ends_inside(img, l, t, false, false, img.px(l, t));
    lemma_run_ends_inside(img, r, t, true, false, img.px(r, t));
    lemma_run_ends_inside(img, l, b, false, true, img.px(l, b));
    lemma_run_ends_inside(img, r, b, true, true, img.px(r, b));
    let (tl, tr, bl, br) = corner_runs(img, seed);
    let w = seed.width as int;
    let h = seed.height as int;
    let e = expanded_spec(img, seed).rect;
    if tl + br < tr + bl {
        let g = tl + br;
        assert(e.area() == (w + g) * (h + g));
        assert((w + g) * (h + g) >= w * h) by (nonlinear_arith)
            requires
                w > 0,
                h > 0,
                g >= 0,
        ;
    } else {
        let g = tr + bl;
        assert(e.area() == (w + g) * (h + g));
        assert((w + g) * (h + g) >= w * h) by (nonlinear_arith)
            requires
                w > 0,
                h > 0,
                g >= 0,
        ;
    }
}

/// Runs depend only on the pixels inside the image.
proof fn lemma_run_same_content(
    a: RasterBuffer,
    b: RasterBuffer,
    x: int,
    y: int,
    right: bool,
    down: bool,
    p: Rgb,
)
    requires
        a.width == b.width,
        a.height == b.height,
        forall|i: int, j: int| a.in_bounds(i, j) ==> #[trigger] a.px(i, j) == b.px(i, j),
    ensures
        run_length(a, x, y, right, down, p) == run_length(b, x, y, right, down, p),
    decreases (if right {
        a.width - x
    } else {
        x + 1
    }),
{
    let nx = if right {
        x + 1
    } else {
        x - 1
    };
    let ny = if down {
        y + 1
    } else {
        y - 1
    };
    if a.in_bounds(nx, ny) && a.px(nx, ny) == p {
        lemma_run_same_content(a, b, nx, ny, right, down, p);
    }
}

/// Two images with the same content give the same expanded region, and so
/// the same diagonal, for the same seed box.
pub proof fn lemma_expand_deterministic(a: RasterBuffer, b: RasterBuffer, seed: Rect)
    requires
        a.wf(),
        b.wf(),
        seed.inside(a.width as int, a.height as int),
        a.width <= i32::MAX,
        a.height <= i32::MAX,
        a.width == b.width,
        a.height == b.height,
        forall|i: int, j: int| a.in_bounds(i, j) ==> #[trigger] a.px(i, j) == b.px(i, j),
    ensures
        expanded_spec(a, seed) == expanded_spec(b, seed),
        expanded_spec(a, seed).diagonal == expanded_spec(b, seed).diagonal,
{
    let l = seed.x as int;
    let t = seed.y as int;
    let r = seed.x + seed.width;
    let bt = seed.y + seed.height;
    lemma_run_same_content(a, b, l, t, false, false, a.px(l, t));
    assert(a.px(l, t) == b.px(l, t));
    if a.in_bounds(r, t) {
        assert(a.px(r, t) == b.px(r, t));
    }
    lemma_run_same_content(a, b, r, t, true, false, a.px(r, t));
    lemma_run_same_content(a, b, r, t, true, false, b.px(r, t));
    if a.in_bounds(l, bt) {
        assert(a.px(l, bt) == b.px(l, bt));
    }
    lemma_run_same_content(a, b, l, bt, false, true, a.px(l, bt));
    lemma_run_same_content(a, b, l, bt, false, true, b.px(l, bt));
    if a.in_bounds(r, bt) {
        assert(a.px(r, bt) == b.px(r, bt));
    }
    lemma_run_same_content(a, b, r, bt, true, true, a.px(r, bt));
    lemma_run_same_content(a, b, r, bt, true, true, b.px(r, bt));
    assert(run_length(b, r, t, true, false, b.px(r, t)) == run_length(
        a,
        r,
        t,
        true,
        false,
        a.px(r, t),
    ));
    assert(run_length(b, l, bt, false, true, b.px(l, bt)) == run_length(
        a,
        l,
        bt,
        false,
        true,
        a.px(l, bt),
    ));
    assert(run_length(b, r, bt, true, true, b.px(r, bt)) == run_length(
        a,
        r,
        bt,
        true,
        true,
        a.px(r, bt),
    ));
}

} // verus!
