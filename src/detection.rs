use vstd::prelude::*;

use crate::geometry::{Origin, Rect};
use crate::nms::{non_max_suppression, nms_kept, Candidate};

verus! {

// Tensor values are fixed-point numbers in millionths: 1_000_000 stands for 1.0.
pub const FIXED_ONE: i64 = 1_000_000;

/// Rows whose object confidence is below this (0.4) are dropped.
pub const OBJECT_CONF_MIN: i64 = 400_000;

/// Rows whose best class score is at most this (0.25) are dropped.
pub const CLASS_SCORE_MIN: i64 = 250_000;

/// Side of the square image that the detector sees.
pub const MODEL_INPUT_SIZE: i64 = 640;

/// Index of the first class score in a tensor row.
pub const FIRST_CLASS_COLUMN: usize = 5;

/// One row of the detector's output: box centre and size in model-input
/// pixels, object confidence and class scores, all in millionths.
#[derive(Clone, Debug)]
pub struct RawDetection {
    pub cx: i64,
    pub cy: i64,
    pub w: i64,
    pub h: i64,
    pub object_conf: i64,
    pub class_scores: Vec<i64>,
}

/// Why a detector output could not be decoded.
#[derive(Clone, Copy, Debug, PartialEq, Eq, Structural)]
pub enum DecodeError {
    /// The tensor does not hold `rows` rows of `columns` values, with at
    /// least one class score per row.
    ShapeMismatch,
    /// A kept box does not lie fully inside the image.
    BoxOutsideImage,
}

/// Boxes that survived decoding, and the top-left corner of each.
#[derive(Clone, Debug)]
pub struct Detections {
    pub boxes: Vec<Rect>,
    pub origins: Vec<Origin>,
}

pub open spec fn seq_max(s: Seq<i64>) -> int
    decreases s.len(),
{
    if s.len() <= 1 {
        s[0] as int
    } else {
        let m = seq_max(s.drop_last());
        if s.last() > m {
            s.last() as int
        } else {
            m
        }
    }
}

/// The row clears both confidence filters.
pub open spec fn row_passes(d: RawDetection) -> bool {
    &&& d.object_conf >= OBJECT_CONF_MIN
    &&& d.class_scores@.len() > 0
    &&& seq_max(d.class_scores@) > CLASS_SCORE_MIN
}

/// Integer division rounding toward zero.
pub open spec fn trunc_div(a: int, b: int) -> int {
    if a >= 0 {
        a / b
    } else {
        -((-a) / b)
    }
}

/// `v` clamped to the range of `i32`.
pub open spec fn saturate_i32(v: int) -> i32 {
    if v > i32::MAX {
        i32::MAX
    } else if v < i32::MIN {
        i32::MIN
    } else {
        v as i32
    }
}

/// Half of `twice` model-input units (in millionths) scaled to an image side of
/// `dim` pixels, truncated toward zero.
pub open spec fn to_pixels(twice: int, dim: int) -> i32 {
    saturate_i32(trunc_div(twice * dim, 2 * MODEL_INPUT_SIZE * FIXED_ONE))
}

/// The row's box in the pixels of a `img_w` by `img_h` image.
pub open spec fn decoded_rect(d: RawDetection, img_w: int, img_h: int) -> Rect {
    Rect {
        x: to_pixels(2 * d.cx - d.w, img_w),
        y: to_pixels(2 * d.cy - d.h, img_h),
        width: to_pixels(2 * d.w, img_w),
        height: to_pixels(2 * d.h, img_h),
    }
}

pub open spec fn candidate_of(d: RawDetection, img_w: int, img_h: int) -> Candidate {
    Candidate { rect: decoded_rect(d, img_w, img_h), score: d.object_conf }
}

/// The candidates of the rows that pass the filters, in row order.
pub open spec fn candidates(rows: Seq<RawDetection>, img_w: int, img_h: int) -> Seq<Candidate>
    decreases rows.len(),
{
    if rows.len() == 0 {
        Seq::empty()
    } else {
        let before = candidates(rows.drop_last(), img_w, img_h);
        if row_passes(rows.last()) {
            before.push(candidate_of(rows.last(), img_w, img_h))
        } else {
            before
        }
    }
}

/// `v` holds the rows of a flat row-major tensor of `rows` rows and
/// `columns` columns.
pub open spec fn tensor_rows(data: Seq<i64>, rows: int, columns: int, v: Seq<RawDetection>) -> bool {
    &&& v.len() == rows
    &&& forall|i: int|
        0 <= i < rows ==> {
            let d = #[trigger] v[i];
            &&& d.cx == data[i * columns]
            &&& d.cy == data[i * columns + 1]
            &&& d.w == data[i * columns + 2]
            &&& d.h == data[i * columns + 3]
            &&& d.object_conf == data[i * columns + 4]
            &&& d.class_scores@ == data.subrange(i * columns + 5, (i + 1) * columns)
        }
}

/// `r` grown by `p` on every side where the grown box stays inside the
/// image on all four sides; otherwise `r` unchanged.
pub open spec fn padded(r: Rect, p: int, img_w: int, img_h: int) -> Rect {
    if r.x - p >= 0 && r.y - p >= 0 && r.x + r.width + p <= img_w && r.y + r.height + p <= img_h {
        Rect {
            x: (r.x - p) as i32,
            y: (r.y - p) as i32,
            width: (r.width + 2 * p) as i32,
            height: (r.height + 2 * p) as i32,
        }
    } else {
        r
    }
}

/// The boxes that decoding yields: kept candidates, padded.
pub open spec fn decoded_boxes(rows: Seq<RawDetection>, img_w: int, img_h: int, p: int) -> Seq<
    Rect,
> {
    nms_kept(candidates(rows, img_w, img_h)).map_values(
        |c: Candidate| padded(c.rect, p, img_w, img_h),
    )
}

fn max_score(s: &Vec<i64>) -> (m: i64)
    requires
        s@.len() > 0,
    ensures
        m == seq_max(s@),
{
    let mut m = s[0];
    let mut i: usize = 1;
    assert(s@.subrange(0, 1).len() == 1);
    while i < s.len()
        invariant
            1 <= i <= s@.len(),
            m == seq_max(s@.subrange(0, i as int)),
        decreases s@.len() - i,
    {
        assert(s@.subrange(0, i + 1).drop_last() =~= s@.subrange(0, i as int));
        if s[i] > m {
            m = s[i];
        }
        i = i + 1;
    }
    assert(s@.subrange(0, s@.len() as int) =~= s@);
    m
}

fn to_pixels_exec(twice: i128, dim: u32) -> (r: i32)
    requires
        -0x4_0000_0000_0000_0000 <= twice <= 0x4_0000_0000_0000_0000,
    ensures
        r == to_pixels(twice as int, dim as int),
{
    let d = dim as i128;
    assert(-0x4_0000_0000_0000_0000_0000_0000 <= twice * d <= 0x4_0000_0000_0000_0000_0000_0000)
        by (nonlinear_arith)
        requires
            -0x4_0000_0000_0000_0000 <= twice <= 0x4_0000_0000_0000_0000,
            0 <= d <= 0xffff_ffff,
    ;
    let prod = twice * d;
    let den: i128 = 1_280_000_000;
    assert(den == 2 * MODEL_INPUT_SIZE * FIXED_ONE);
    let q: i128 = if prod >= 0 {
        prod / den
    } else {
        -((-prod) / den)
    };
    if q > i32::MAX as i128 {
        i32::MAX
    } else if q < i32::MIN as i128 {
        i32::MIN
    } else {
        q as i32
    }
}

/// The candidate of one tensor row, or `None` where the row fails either
/// confidence filter.
pub fn decode_row(d: &RawDetection, img_w: u32, img_h: u32) -> (r: Option<Candidate>)
    ensures
        r == (if row_passes(*d) {
            Some(candidate_of(*d, img_w as int, img_h as int))
        } else {
            None
        }),
{
    if d.object_conf < OBJECT_CONF_MIN || d.class_scores.len() == 0 {
        return None;
    }
    if max_score(&d.class_scores) <= CLASS_SCORE_MIN {
        return None;
    }
    let cx = d.cx as i128;
    let cy = d.cy as i128;
    let w = d.w as i128;
    let h = d.h as i128;
    let rect = Rect {
        x: to_pixels_exec(2 * cx - w, img_w),
        y: to_pixels_exec(2 * cy - h, img_h),
        width: to_pixels_exec(2 * w, img_w),
        height: to_pixels_exec(2 * h, img_h),
    };
    Some(Candidate { rect, score: d.object_conf })
}

/// The candidates of all rows that pass the confidence filters, in row order.
pub fn decode_candidates(rows: &Vec<RawDetection>, img_w: u32, img_h: u32) -> (c: Vec<Candidate>)
    ensures
        c@ == candidates(rows@, img_w as int, img_h as int),
{
    let mut c: Vec<Candidate> = Vec::new();
    let mut i: usize = 0;
    while i < rows.len()
        invariant
            i <= rows@.len(),
            c@ == candidates(rows@.subrange(0, i as int), img_w as int, img_h as int),
        decreases rows@.len() - i,
    {
        assert(rows@.subrange(0, i + 1).drop_last() =~= rows@.subrange(0, i as int));
        match decode_row(&rows[i], img_w, img_h) {
            Some(cand) => {
                c.push(cand);
            },
            None => {},
        }
        i = i + 1;
    }
    assert(rows@.subrange(0, rows@.len() as int) =~= rows@);
    c
}

/// `r` with `padding` added on every side, where the padded box stays
/// inside the image; `r` itself otherwise.
pub fn pad_box(r: Rect, padding: u16, img_w: u32, img_h: u32) -> (p: Rect)
    requires
        img_w <= i32::MAX,
        img_h <= i32::MAX,
    ensures
        p == padded(r, padding as int, img_w as int, img_h as int),
{
    let pd = padding as i64;
    let x = r.x as i64;
    let y = r.y as i64;
    let w = r.width as i64;
    let h = r.height as i64;
    if x - pd >= 0 && y - pd >= 0 && x + w + pd <= img_w as i64 && y + h + pd <= img_h as i64 {
        Rect {
            x: (x - pd) as i32,
            y: (y - pd) as i32,
            width: (w + 2 * pd) as i32,
            height: (h + 2 * pd) as i32,
        }
    } else {
        r
    }
}

/// Splits a flat row-major tensor into `rows` rows of `columns` values:
/// centre x, centre y, width, height, object confidence, then class scores.
pub fn rows_from_tensor(data: &Vec<i64>, rows: usize, columns: usize) -> (r: Result<
    Vec<RawDetection>,
    DecodeError,
>)
    ensures
        r is Err <==> (columns <= FIRST_CLASS_COLUMN || data@.len() != rows * columns),
        r is Err ==> r == Err::<Vec<RawDetection>, DecodeError>(DecodeError::ShapeMismatch),
        r matches Ok(v) ==> {
            &&& v@.len() == rows
            &&& forall|i: int|
                0 <= i < rows ==> {
                    let d = #[trigger] v@[i];
                    &&& d.cx == data@[i * columns]
                    &&& d.cy == data@[i * columns + 1]
                    &&& d.w == data@[i * columns + 2]
                    &&& d.h == data@[i * columns + 3]
                    &&& d.object_conf == data@[i * columns + 4]
                    &&& d.class_scores@ == data@.subrange(i * columns + 5, (i + 1) * columns)
                }
        },
{
    if columns <= FIRST_CLASS_COLUMN {
        return Err(DecodeError::ShapeMismatch);
    }
    let len: usize = data.len();
    match rows.checked_mul(columns) {
        None => {
            return Err(DecodeError::ShapeMismatch);
        },
        Some(total) => {
            if total != data.len() {
                return Err(DecodeError::ShapeMismatch);
            }
        },
    }
    let mut v: Vec<RawDetection> = Vec::new();
    let mut i: usize = 0;
    let mut base: usize = 0;
    while i < rows
        invariant
            columns > FIRST_CLASS_COLUMN,
            data@.len() == rows * columns,
            data@.len() == len,
            i <= rows,
            base == i * columns,
            v@.len() == i,
            forall|k: int|
                0 <= k < i ==> {
                    let d = #[trigger] v@[k];
                    &&& d.cx == data@[k * columns]
                    &&& d.cy == data@[k * columns + 1]
                    &&& d.w == data@[k * columns + 2]
                    &&& d.h == data@[k * columns + 3]
                    &&& d.object_conf == data@[k * columns + 4]
                    &&& d.class_scores@ == data@.subrange(k * columns + 5, (k + 1) * columns)
                },
        decreases rows - i,
    {
        assert(base + columns <= data@.len()) by (nonlinear_arith)
            requires
                base == i * columns,
                i < rows,
                data@.len() == rows * columns,
        ;
        assert((i + 1) * columns == base + columns) by (nonlinear_arith)
            requires
                base == i * columns,
        ;
        let mut scores: Vec<i64> = Vec::new();
        let mut j: usize = FIRST_CLASS_COLUMN;
        while j < columns
            invariant
                FIRST_CLASS_COLUMN <= j <= columns,
                columns > FIRST_CLASS_COLUMN,
                data@.len() == rows * columns,
                data@.len() == len,
                i < rows,
                base == i * columns,
                (i + 1) * columns == base + columns,
                v@.len() == i,
                forall|k: int|
                    0 <= k < i ==> {
                        let d = #[trigger] v@[k];
                        &&& d.cx == data@[k * columns]
                        &&& d.cy == data@[k * columns + 1]
                        &&& d.w == data@[k * columns + 2]
                        &&& d.h == data@[k * columns + 3]
                        &&& d.object_conf == data@[k * columns + 4]
                        &&& d.class_scores@ == data@.subrange(k * columns + 5, (k + 1) * columns)
                    },
                base + columns <= data@.len(),
                scores@ =~= data@.subrange(base + 5, base + j),
            decreases columns - j,
        {
            scores.push(data[base + j]);
            j = j + 1;
        }
        v.push(
            RawDetection {
                cx: data[base],
                cy: data[base + 1],
                w: data[base + 2],
                h: data[base + 3],
                object_conf: data[base + 4],
                class_scores: scores,
            },
        );
        i = i + 1;
        base = base + columns;
    }
    Ok(v)
}

impl Detector {
    pub fn new(padding: Option<u16>) -> (d: Detector)
        ensures
            d.padding == (match padding {
                Some(p) => p,
                None => crate::DEFAULT_PADDING,
            }),
    {
        let padding = match padding {
            Some(p) => p,
            None => crate::DEFAULT_PADDING,
        };
        Detector { padding }
    }

    /// Decodes detector output rows for an `img_w` by `img_h` image: filters
    /// rows by confidence, converts them to pixel boxes, suppresses overlapping
    /// boxes and pads the survivors. Fails where a resulting box does not lie
    /// fully inside the image.
    pub fn get_detections(&self, rows: &Vec<RawDetection>, img_w: u32, img_h: u32) -> (r: Result<
        Detections,
        DecodeError,
    >)
        requires
            img_w <= i32::MAX,
            img_h <= i32::MAX,
        ensures
            ({
                let want = decoded_boxes(rows@, img_w as int, img_h as int, self.padding as int);
                &&& r is Ok <==> forall|k: int|
                    0 <= k < want.len() ==> (#[trigger] want[k]).inside(img_w as int, img_h as int)
                &&& r is Err ==> r == Err::<Detections, DecodeError>(DecodeError::BoxOutsideImage)
                &&& r matches Ok(d) ==> d.boxes@ == want && d.origins@ == want.map_values(
                    |b: Rect| (b.x, b.y),
                )
            }),
    {
        let cands = decode_candidates(rows, img_w, img_h);
        let kept = non_max_suppression(&cands);
        let ghost want = decoded_boxes(rows@, img_w as int, img_h as int, self.padding as int);
        let ghost kept_c = nms_kept(cands@);
        assert(kept_c.len() == kept@.len());
        let mut boxes: Vec<Rect> = Vec::new();
        let mut origins: Vec<Origin> = Vec::new();
        let mut t: usize = 0;
        while t < kept.len()
            invariant
                img_w <= i32::MAX,
                img_h <= i32::MAX,
                cands@ == candidates(rows@, img_w as int, img_h as int),
                want == decoded_boxes(rows@, img_w as int, img_h as int, self.padding as int),
                kept_c == nms_kept(cands@),
                crate::nms::as_ints(kept@) == crate::nms::nms_spec(cands@),
                forall|k: int| 0 <= k < kept@.len() ==> (#[trigger] kept@[k]) < cands@.len(),
                want.len() == kept@.len(),
                t <= kept@.len(),
                boxes@ == want.subrange(0, t as int),
                origins@ == want.subrange(0, t as int).map_values(|b: Rect| (b.x, b.y)),
                forall|k: int| 0 <= k < t ==> (#[trigger] want[k]).inside(img_w as int, img_h as int),
            decreases kept@.len() - t,
        {
            assert(crate::nms::as_ints(kept@)[t as int] == kept@[t as int] as int);
            let b = pad_box(cands[kept[t]].rect, self.padding, img_w, img_h);
            assert(b == want[t as int]);
            if b.x < 0 || b.y < 0 || b.width <= 0 || b.height <= 0 || b.x as i64 + b.width as i64
                > img_w as i64 || b.y as i64 + b.height as i64 > img_h as i64 {
                return Err(DecodeError::BoxOutsideImage);
            }
            boxes.push(b);
            origins.push((b.x, b.y));
            assert(boxes@ =~= want.subrange(0, t + 1));
            assert(origins@ =~= want.subrange(0, t + 1).map_values(|b: Rect| (b.x, b.y)));
            t = t + 1;
        }
        assert(want.subrange(0, want.len() as int) =~= want);
        Ok(Detections { boxes, origins })
    }

    /// Decodes a flat detector output tensor of `rows` rows and `columns`
    /// columns for an `img_w` by `img_h` image.
    pub fn decode_tensor(
        &self,
        data: &Vec<i64>,
        rows: usize,
        columns: usize,
        img_w: u32,
        img_h: u32,
    ) -> (r: Result<Detections, DecodeError>)
        requires
            img_w <= i32::MAX,
            img_h <= i32::MAX,
        ensures
            (columns <= FIRST_CLASS_COLUMN || data@.len() != rows * columns) ==> r == Err::<
                Detections,
                DecodeError,
            >(DecodeError::ShapeMismatch),
            (columns > FIRST_CLASS_COLUMN && data@.len() == rows * columns) ==> exists|
                v: Seq<RawDetection>,
            |
                {
                    let want = decoded_boxes(v, img_w as int, img_h as int, self.padding as int);
                    &&& #[trigger] tensor_rows(data@, rows as int, columns as int, v)
                    &&& r is Ok <==> forall|k: int|
                        0 <= k < want.len() ==> (#[trigger] want[k]).inside(
                            img_w as int,
                            img_h as int,
                        )
                    &&& r is Err ==> r == Err::<Detections, DecodeError>(
                        DecodeError::BoxOutsideImage,
                    )
                    &&& r matches Ok(d) ==> d.boxes@ == want && d.origins@ == want.map_values(
                        |b: Rect| (b.x, b.y),
                    )
                },
    {
        let parsed = rows_from_tensor(data, rows, columns);
        match parsed {
            Err(e) => Err(e),
            Ok(v) => {
                let r = self.get_detections(&v, img_w, img_h);
                assert(tensor_rows(data@, rows as int, columns as int, v@));
                r
            },
        }
    }
}

/// Decodes detector output for one page, holding the padding to apply.
#[derive(Clone, Copy, Debug)]
pub struct Detector {
    pub padding: u16,
}

/// Every decoded box comes from a tensor row whose object confidence is at
/// least `OBJECT_CONF_MIN` and whose best class score exceeds
/// `CLASS_SCORE_MIN`.
pub proof fn lemma_decoded_rows_pass_filters(rows: Seq<RawDetection>, img_w: int, img_h: int, p: int)
    ensures
        forall|k: int|
            0 <= k < decoded_boxes(rows, img_w, img_h, p).len() ==> exists|i: int|
                0 <= i < rows.len() && row_passes(#[trigger] rows[i]) && (#[trigger] decoded_boxes(
                    rows,
                    img_w,
                    img_h,
                    p,
                )[k]) == padded(decoded_rect(rows[i], img_w, img_h), p, img_w, img_h),
{
    let c = candidates(rows, img_w, img_h);
    lemma_candidates_from_passing_rows(rows, img_w, img_h);
    crate::nms::lemma_nms_kept_from_input(c);
    let want = decoded_boxes(rows, img_w, img_h, p);
    assert forall|k: int| 0 <= k < want.len() implies exists|i: int|
        0 <= i < rows.len() && row_passes(#[trigger] rows[i]) && (#[trigger] want[k]) == padded(
            decoded_rect(rows[i], img_w, img_h),
            p,
            img_w,
            img_h,
        ) by {
        let kc = nms_kept(c)[k];
        let j = choose|j: int| 0 <= j < c.len() && c[j] == kc;
        let i = choose|i: int|
            0 <= i < rows.len() && row_passes(rows[i]) && c[j] == candidate_of(rows[i], img_w, img_h);
        assert(want[k] == padded(decoded_rect(rows[i], img_w, img_h), p, img_w, img_h));
    }
}

proof fn lemma_candidates_from_passing_rows(rows: Seq<RawDetection>, img_w: int, img_h: int)
    ensures
        forall|j: int|
            0 <= j < candidates(rows, img_w, img_h).len() ==> exists|i: int|
                0 <= i < rows.len() && row_passes(rows[i]) && #[trigger] candidates(
                    rows,
                    img_w,
                    img_h,
                )[j] == candidate_of(rows[i], img_w, img_h),
    decreases rows.len(),
{
    if rows.len() > 0 {
        let pre = rows.drop_last();
        lemma_candidates_from_passing_rows(pre, img_w, img_h);
        let c = candidates(rows, img_w, img_h);
        let cp = candidates(pre, img_w, img_h);
        assert forall|j: int| 0 <= j < c.len() implies exists|i: int|
            0 <= i < rows.len() && row_passes(rows[i]) && #[trigger] c[j] == candidate_of(
                rows[i],
                img_w,
                img_h,
            ) by {
            if j < cp.len() {
                assert(c[j] == cp[j]);
                let i = choose|i: int|
                    0 <= i < pre.len() && row_passes(pre[i]) && cp[j] == candidate_of(
                        pre[i],
                        img_w,
                        img_h,
                    );
                assert(rows[i] == pre[i]);
                assert(0 <= i < rows.len() && row_passes(rows[i]) && c[j] == candidate_of(
                    rows[i],
                    img_w,
                    img_h,
                ));
            } else {
                let i = rows.len() - 1;
                assert(row_passes(rows[i]));
                assert(c[j] == candidate_of(rows[i], img_w, img_h));
            }
        }
    }
}

} // verus!
