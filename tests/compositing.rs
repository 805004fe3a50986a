use mangatra::compositor::{
    clean_region, copy_image, expand_regions, replace_region, CompositeError, ReplacementPatch,
    Replacer,
};
use mangatra::expander::expand_text_region;
use mangatra::geometry::{DiagonalOrientation, Rect};
use mangatra::raster::{white, RasterBuffer, RasterError, Rgb};

const BLACK: Rgb = Rgb { r: 0, g: 0, b: 0 };

fn gradient(w: usize, h: usize) -> RasterBuffer {
    let rows = (0..h)
        .map(|y| (0..w).map(|x| Rgb { r: x as u8, g: y as u8, b: 7 }).collect())
        .collect();
    RasterBuffer { width: w, height: h, rows }
}

/// A black page with a white rectangle `[x0, x1) x [y0, y1)`.
fn bubble_page(w: usize, h: usize, x0: usize, y0: usize, x1: usize, y1: usize) -> RasterBuffer {
    let rows = (0..h)
        .map(|y| {
            (0..w)
                .map(|x| if x >= x0 && x < x1 && y >= y0 && y < y1 { white() } else { BLACK })
                .collect()
        })
        .collect();
    RasterBuffer { width: w, height: h, rows }
}

fn rect(x: i32, y: i32, width: i32, height: i32) -> Rect {
    Rect { x, y, width, height }
}

#[test]
fn crop_and_concat_rebuild_the_image() {
    let img = gradient(6, 4);
    let left = img.crop(0, 0, 2, 4).unwrap();
    let right = img.crop(2, 0, 4, 4).unwrap();
    let joined = left.hconcat(&right).unwrap();
    assert_eq!(joined.rows, img.rows);
    let top = img.crop(0, 0, 6, 1).unwrap();
    let bottom = img.crop(0, 1, 6, 3).unwrap();
    assert_eq!(top.vconcat(&bottom).unwrap().rows, img.rows);
    assert_eq!(img.crop(5, 0, 2, 1).unwrap_err(), RasterError::OutOfBounds);
    assert_eq!(top.hconcat(&bottom).unwrap_err(), RasterError::SizeMismatch);
    assert_eq!(left.vconcat(&top).unwrap_err(), RasterError::SizeMismatch);
    assert_eq!(img.get_pixel_checked(6, 0), None);
    assert_eq!(img.get_pixel_checked(5, 3), Some(Rgb { r: 5, g: 3, b: 7 }));
}

#[test]
fn replace_region_changes_only_the_patch() {
    let img = gradient(8, 6);
    let patch = RasterBuffer::filled(3, 2, BLACK);
    let out = replace_region(&img, &patch, 4, 3).unwrap();
    assert_eq!((out.width, out.height), (8, 6));
    for y in 0..6 {
        for x in 0..8 {
            let inside = (4..7).contains(&x) && (3..5).contains(&y);
            let want = if inside { BLACK } else { img.get_pixel(x, y) };
            assert_eq!(out.get_pixel(x, y), want);
        }
    }
    assert_eq!(replace_region(&img, &patch, 6, 0).unwrap_err(), RasterError::OutOfBounds);
}

#[test]
fn clean_blanks_exactly_the_patch() {
    let img = gradient(8, 6);
    let out = clean_region(&img, 1, 2, 4, 3).unwrap();
    let window = out.crop(1, 2, 4, 3).unwrap();
    assert_eq!((window.width, window.height), (4, 3));
    assert!(window.rows.iter().flatten().all(|p| *p == white()));
    for y in 0..6 {
        for x in 0..8 {
            if !((1..5).contains(&x) && (2..5).contains(&y)) {
                assert_eq!(out.get_pixel(x, y), img.get_pixel(x, y));
            }
        }
    }
}

#[test]
fn scenario_d_cleaning_twice_equals_once() {
    let img = gradient(8, 6);
    let once = clean_region(&img, 2, 1, 3, 3).unwrap();
    let twice = clean_region(&once, 2, 1, 3, 3).unwrap();
    assert_eq!(once.rows, twice.rows);
}

#[test]
fn expansion_follows_the_bubble() {
    let page = bubble_page(20, 20, 2, 2, 18, 18);
    let e = expand_text_region(&page, rect(6, 6, 5, 5));
    // Runs: top-left 4, top-right 4, bottom-left 4, bottom-right 6.
    assert_eq!(e.rect, rect(2, 2, 13, 13));
    assert_eq!(e.diagonal, DiagonalOrientation::TopRightBottomLeft);
    let again = expand_text_region(&page, rect(6, 6, 5, 5));
    assert_eq!(again, e);
}

#[test]
fn expansion_picks_the_shorter_diagonal_pair() {
    // The bubble reaches further down-right than up-left.
    let page = bubble_page(30, 30, 4, 4, 28, 28);
    let e = expand_text_region(&page, rect(6, 6, 6, 6));
    // Runs: top-left 2, bottom-right 15, top-right 2, bottom-left 2.
    assert_eq!(e.diagonal, DiagonalOrientation::TopRightBottomLeft);
    assert_eq!(e.rect, rect(4, 4, 10, 10));
}

#[test]
fn expansion_without_runs_keeps_the_seed() {
    let img = gradient(10, 10);
    let e = expand_text_region(&img, rect(3, 3, 4, 4));
    assert_eq!(e.rect, rect(3, 3, 4, 4));
    assert_eq!(e.diagonal, DiagonalOrientation::TopRightBottomLeft);
    let edge = expand_text_region(&img, rect(0, 0, 10, 10));
    assert_eq!(edge.rect, rect(0, 0, 10, 10));
}

#[test]
fn main_diagonal_wins_when_shorter() {
    // Uniform page: every corner runs to the image edge.
    let page = RasterBuffer::filled(12, 12, BLACK);
    let e = expand_text_region(&page, rect(2, 3, 4, 4));
    // Runs: top-left 2, bottom-right 4, top-right 3, bottom-left 2.
    assert_eq!(e.diagonal, DiagonalOrientation::TopRightBottomLeft);
    assert_eq!(e.rect, rect(0, 0, 9, 9));
    let e2 = expand_text_region(&page, rect(8, 1, 2, 8));
    // Runs: top-left 1, bottom-right 1, top-right 1, bottom-left 2.
    assert_eq!(e2.diagonal, DiagonalOrientation::TopLeftBottomRight);
    assert_eq!(e2.rect, rect(7, 0, 4, 10));
}

#[test]
fn clean_page_blanks_each_region_at_its_grown_origin() {
    let page = bubble_page(20, 20, 2, 2, 18, 18);
    let out = Replacer::new(vec![rect(6, 6, 5, 5)], None, page.clone(), None).clean_page().unwrap();
    let regions = expand_regions(&page, &vec![rect(6, 6, 5, 5)]).unwrap();
    let g = regions[0].rect;
    for y in 0..20 {
        for x in 0..20 {
            let inside = x >= g.x as usize && x < g.x as usize + 5 && y >= g.y as usize && y < g.y as usize + 5;
            let want = if inside { white() } else { page.get_pixel(x, y) };
            assert_eq!(out.get_pixel(x, y), want);
        }
    }
    let err = Replacer::new(vec![rect(18, 18, 5, 5)], None, page.clone(), None)
        .clean_page()
        .unwrap_err();
    assert_eq!(err, CompositeError::RegionOutsideImage);
    let same = Replacer::new(vec![], None, page.clone(), None).clean_page().unwrap();
    assert_eq!(same.rows, page.rows);
}

#[test]
fn patches_are_placed_in_order() {
    let img = gradient(10, 10);
    let first = ReplacementPatch {
        raster: RasterBuffer::filled(4, 4, BLACK),
        x: 1,
        y: 1,
        diagonal: DiagonalOrientation::TopLeftBottomRight,
    };
    let second = ReplacementPatch {
        raster: RasterBuffer::blank(2, 2),
        x: 3,
        y: 3,
        diagonal: DiagonalOrientation::TopRightBottomLeft,
    };
    let texts = Some(vec!["a".to_string(), "b".to_string()]);
    let replacer = Replacer::new(vec![], texts, img.clone(), None);
    let out = replacer.replace_text_regions(&vec![first.clone(), second]).unwrap();
    assert_eq!(out.get_pixel(1, 1), BLACK);
    assert_eq!(out.get_pixel(3, 3), white());
    assert_eq!(out.get_pixel(4, 4), white());
    assert_eq!(out.get_pixel(4, 1), BLACK);
    assert_eq!(out.get_pixel(5, 5), img.get_pixel(5, 5));
    let too_far = ReplacementPatch {
        raster: RasterBuffer::blank(2, 2),
        x: 9,
        y: 0,
        diagonal: DiagonalOrientation::TopRightBottomLeft,
    };
    assert_eq!(
        replacer.replace_text_regions(&vec![too_far]).unwrap_err(),
        CompositeError::RegionOutsideImage
    );
    assert_eq!(copy_image(&img).rows, img.rows);
    let without_text = Replacer::new(vec![], None, img.clone(), None);
    assert_eq!(
        without_text.replace_text_regions(&vec![first]).unwrap_err(),
        CompositeError::MissingText
    );
    assert_eq!(without_text.replace_text_regions(&vec![]).unwrap_err(), CompositeError::MissingText);
}

#[test]
fn letterbox_pads_to_a_square() {
    let tall = gradient(3, 5);
    let sq = mangatra::raster::letterbox(&tall);
    assert_eq!((sq.width, sq.height), (5, 5));
    assert_eq!(sq.get_pixel(2, 4), tall.get_pixel(2, 4));
    assert_eq!(sq.get_pixel(3, 0), BLACK);
    let wide = gradient(6, 2);
    let sq = mangatra::raster::letterbox(&wide);
    assert_eq!((sq.width, sq.height), (6, 6));
    assert_eq!(sq.get_pixel(5, 1), wide.get_pixel(5, 1));
    assert_eq!(sq.get_pixel(0, 2), BLACK);
    let same = mangatra::raster::letterbox(&gradient(4, 4));
    assert_eq!(same.rows, gradient(4, 4).rows);
}

#[test]
fn each_text_gets_the_grown_region_of_its_box() {
    let page = bubble_page(20, 20, 2, 2, 18, 18);
    let texts = Some(vec!["hi".to_string()]);
    let boxes = vec![rect(6, 6, 5, 5), rect(0, 0, 1, 1)];
    let r = Replacer::new(boxes.clone(), texts, page.clone(), Some(3));
    assert_eq!(r.padding, 3);
    let grown = r.expanded_text_regions().unwrap();
    assert_eq!(grown.len(), 1);
    assert_eq!(grown[0].rect, rect(2, 2, 13, 13));
    let none = Replacer::new(boxes.clone(), None, page.clone(), None);
    assert_eq!(none.expanded_text_regions().unwrap_err(), CompositeError::MissingText);
    let many = Replacer::new(
        boxes,
        Some(vec!["a".to_string(), "b".to_string(), "c".to_string()]),
        page,
        None,
    );
    assert_eq!(many.expanded_text_regions().unwrap_err(), CompositeError::TextWithoutRegion);
}

#[test]
fn grown_regions_stay_inside_and_never_shrink() {
    let pages = [
        bubble_page(24, 18, 3, 2, 20, 15),
        bubble_page(16, 16, 0, 0, 16, 16),
        gradient(12, 9),
    ];
    for page in &pages {
        for x in 0..page.width as i32 {
            for y in 0..page.height as i32 {
                for (w, h) in [(1, 1), (2, 3), (4, 2)] {
                    if x + w > page.width as i32 || y + h > page.height as i32 {
                        continue;
                    }
                    let e = expand_text_region(page, rect(x, y, w, h)).rect;
                    assert!(e.x >= 0 && e.y >= 0);
                    assert!(e.x + e.width <= page.width as i32);
                    assert!(e.y + e.height <= page.height as i32);
                    assert!(e.width * e.height >= w * h);
                }
            }
        }
    }
}

#[test]
fn same_content_gives_the_same_diagonal() {
    let a = bubble_page(30, 30, 4, 4, 28, 28);
    let b = bubble_page(30, 30, 4, 4, 28, 28);
    for seed in [rect(6, 6, 6, 6), rect(10, 5, 3, 9), rect(20, 20, 2, 2)] {
        assert_eq!(expand_text_region(&a, seed), expand_text_region(&b, seed));
    }
}

#[test]
fn cleaned_page_is_white_in_every_patch_and_unchanged_elsewhere() {
    let page = gradient(16, 12);
    let boxes = vec![rect(1, 1, 3, 2), rect(8, 5, 4, 4)];
    let out = Replacer::new(boxes.clone(), None, page.clone(), None).clean_page().unwrap();
    let grown = expand_regions(&page, &boxes).unwrap();
    for y in 0..12usize {
        for x in 0..16usize {
            let in_patch = boxes.iter().zip(grown.iter()).any(|(b, g)| {
                let (gx, gy) = (g.rect.x as usize, g.rect.y as usize);
                x >= gx && x < gx + b.width as usize && y >= gy && y < gy + b.height as usize
            });
            let want = if in_patch { white() } else { page.get_pixel(x, y) };
            assert_eq!(out.get_pixel(x, y), want);
        }
    }
}
