use vstd::prelude::*;

use crate::geometry::Rect;

verus! {

/// A candidate box with its confidence score in millionths.
#[derive(Clone, Copy, Debug, PartialEq, Eq, Structural)]
pub struct Candidate {
    pub rect: Rect,
    pub score: i64,
}

/// A candidate survives suppression only with a score above this (0.25).
pub const NMS_SCORE_MIN: i64 = 250_000;

/// A candidate is suppressed when its overlap with a kept box exceeds this
/// many hundredths (0.45).
pub const NMS_IOU_PERCENT: i64 = 45;

pub open spec fn max_int(a: int, b: int) -> int {
    if a >= b { a } else { b }
}

pub open spec fn min_int(a: int, b: int) -> int {
    if a <= b { a } else { b }
}

/// Area of the intersection of two rectangles; zero where they do not overlap.
pub open spec fn intersection_area(a: Rect, b: Rect) -> int {
    let x1 = max_int(a.x as int, b.x as int);
    let y1 = max_int(a.y as int, b.y as int);
    let x2 = min_int(a.x + a.width, b.x + b.width);
    let y2 = min_int(a.y + a.height, b.y + b.height);
    if x2 > x1 && y2 > y1 {
        (x2 - x1) * (y2 - y1)
    } else {
        0
    }
}

/// The intersection over union of `a` and `b` exceeds the threshold; two boxes
/// whose areas add up to nothing count as fully overlapping.
pub open spec fn suppresses(a: Rect, b: Rect) -> bool {
    let sum = a.area() + b.area();
    let inter = intersection_area(a, b);
    sum <= 0 || 100 * inter > NMS_IOU_PERCENT * (sum - inter)
}

/// Candidate `a` is processed before candidate `b`: a higher score first, and
/// the earlier index among equal scores.
pub open spec fn ranks_before(c: Seq<Candidate>, a: int, b: int) -> bool {
    c[a].score > c[b].score || (c[a].score == c[b].score && a < b)
}

/// Position, within `rem`, of the candidate that is processed first.
pub open spec fn best_pos(c: Seq<Candidate>, rem: Seq<int>) -> int
    decreases rem.len(),
{
    if rem.len() <= 1 {
        0
    } else {
        let p = best_pos(c, rem.drop_last());
        if ranks_before(c, rem.last(), rem[p]) {
            rem.len() - 1
        } else {
            p
        }
    }
}

/// The indices of `rem` in processing order.
pub open spec fn rank_order(c: Seq<Candidate>, rem: Seq<int>) -> Seq<int>
    decreases rem.len(),
{
    let p = best_pos(c, rem);
    if rem.len() == 0 || p < 0 || p >= rem.len() {
        Seq::empty()
    } else {
        seq![rem[p]] + rank_order(c, rem.remove(p))
    }
}

/// The indices of `order` that greedy suppression keeps, in order.
pub open spec fn greedy_keep(c: Seq<Candidate>, order: Seq<int>) -> Seq<int>
    decreases order.len(),
{
    if order.len() == 0 {
        Seq::empty()
    } else {
        let kept = greedy_keep(c, order.drop_last());
        let i = order.last();
        if c[i].score > NMS_SCORE_MIN && forall|k: int|
            0 <= k < kept.len() ==> !suppresses(#[trigger] c[kept[k]].rect, c[i].rect) {
            kept.push(i)
        } else {
            kept
        }
    }
}

/// The integers `a, a + 1, ..., b - 1`.
pub open spec fn index_range(a: int, b: int) -> Seq<int> {
    Seq::new((b - a) as nat, |i: int| a + i)
}

/// Indices of the candidates that non-maximum suppression keeps, highest
/// score first.
pub open spec fn nms_spec(c: Seq<Candidate>) -> Seq<int> {
    greedy_keep(c, rank_order(c, index_range(0, c.len() as int)))
}

/// The candidates that non-maximum suppression keeps, highest score first.
pub open spec fn nms_kept(c: Seq<Candidate>) -> Seq<Candidate> {
    nms_spec(c).map_values(|i: int| c[i])
}

pub open spec fn as_ints(s: Seq<usize>) -> Seq<int> {
    s.map_values(|v: usize| v as int)
}

fn ranks_before_exec(c: &Vec<Candidate>, a: usize, b: usize) -> (r: bool)
    requires
        a < c@.len(),
        b < c@.len(),
    ensures
        r == ranks_before(c@, a as int, b as int),
{
    c[a].score > c[b].score || (c[a].score == c[b].score && a < b)
}

fn suppresses_exec(a: &Rect, b: &Rect) -> (r: bool)
    ensures
        r == suppresses(*a, *b),
{
    let ax = a.x as i128;
    let ay = a.y as i128;
    let bx = b.x as i128;
    let by = b.y as i128;
    let x1 = if ax >= bx { ax } else { bx };
    let y1 = if ay >= by { ay } else { by };
    let ar = ax + a.width as i128;
    let br = bx + b.width as i128;
    let ab = ay + a.height as i128;
    let bb = by + b.height as i128;
    let x2 = if ar <= br { ar } else { br };
    let y2 = if ab <= bb { ab } else { bb };
    let aw = a.width as i128;
    let ah = a.height as i128;
    let bw = b.width as i128;
    let bh = b.height as i128;
    assert(-0x8000_0000 <= aw <= 0x7fff_ffff && -0x8000_0000 <= ah <= 0x7fff_ffff);
    assert(-0x4000_0000_0000_0000 <= aw * ah <= 0x4000_0000_0000_0000) by (nonlinear_arith)
        requires
            -0x8000_0000 <= aw <= 0x7fff_ffff,
            -0x8000_0000 <= ah <= 0x7fff_ffff,
    ;
    assert(-0x4000_0000_0000_0000 <= bw * bh <= 0x4000_0000_0000_0000) by (nonlinear_arith)
        requires
            -0x8000_0000 <= bw <= 0x7fff_ffff,
            -0x8000_0000 <= bh <= 0x7fff_ffff,
    ;
    let sum = aw * ah + bw * bh;
    let inter: i128 = if x2 > x1 && y2 > y1 {
        let dx = x2 - x1;
        let dy = y2 - y1;
        assert(0 < dx <= 0x2_0000_0000 && 0 < dy <= 0x2_0000_0000);
        assert(0 < dx * dy <= 0x4_0000_0000_0000_0000) by (nonlinear_arith)
            requires
                0 < dx <= 0x2_0000_0000,
                0 < dy <= 0x2_0000_0000,
        ;
        dx * dy
    } else {
        0
    };
    sum <= 0 || 100 * inter > (NMS_IOU_PERCENT as i128) * (sum - inter)
}

/// Position in `rem` of the candidate processed first.
fn best_position(c: &Vec<Candidate>, rem: &Vec<usize>) -> (p: usize)
    requires
        rem@.len() > 0,
        forall|k: int| 0 <= k < rem@.len() ==> (#[trigger] rem@[k]) < c@.len(),
    ensures
        p == best_pos(c@, as_ints(rem@)),
        p < rem@.len(),
{
    let mut p: usize = 0;
    let mut k: usize = 1;
    assert(as_ints(rem@).subrange(0, 1).len() == 1);
    while k < rem.len()
        invariant
            1 <= k <= rem@.len(),
            p < k,
            forall|j: int| 0 <= j < rem@.len() ==> (#[trigger] rem@[j]) < c@.len(),
            p == best_pos(c@, as_ints(rem@).subrange(0, k as int)),
        decreases rem@.len() - k,
    {
        let ghost s = as_ints(rem@).subrange(0, k + 1);
        assert(s.drop_last() =~= as_ints(rem@).subrange(0, k as int));
        if ranks_before_exec(c, rem[k], rem[p]) {
            p = k;
        }
        k = k + 1;
    }
    assert(as_ints(rem@).subrange(0, rem@.len() as int) =~= as_ints(rem@));
    p
}

proof fn lemma_best_pos_in_range(c: Seq<Candidate>, rem: Seq<int>)
    ensures
        rem.len() > 0 ==> 0 <= best_pos(c, rem) < rem.len(),
    decreases rem.len(),
{
    if rem.len() > 1 {
        lemma_best_pos_in_range(c, rem.drop_last());
    }
}

/// The indices of `c` in processing order.
fn rank_candidates(c: &Vec<Candidate>) -> (order: Vec<usize>)
    ensures
        as_ints(order@) == rank_order(c@, index_range(0, c@.len() as int)),
        forall|k: int| 0 <= k < order@.len() ==> (#[trigger] order@[k]) < c@.len(),
{
    let mut rem: Vec<usize> = Vec::new();
    let mut i: usize = 0;
    while i < c.len()
        invariant
            i <= c@.len(),
            as_ints(rem@) =~= index_range(0, i as int),
        decreases c@.len() - i,
    {
        let ghost before = as_ints(rem@);
        rem.push(i);
        assert(as_ints(rem@) =~= before.push(i as int));
        i = i + 1;
    }
    assert forall|k: int| 0 <= k < rem@.len() implies (#[trigger] rem@[k]) < c@.len() by {
        assert(as_ints(rem@)[k] == k);
    }
    let mut order: Vec<usize> = Vec::new();
    while rem.len() > 0
        invariant
            forall|k: int| 0 <= k < rem@.len() ==> (#[trigger] rem@[k]) < c@.len(),
            forall|k: int| 0 <= k < order@.len() ==> (#[trigger] order@[k]) < c@.len(),
            as_ints(order@) + rank_order(c@, as_ints(rem@)) == rank_order(
                c@,
                index_range(0, c@.len() as int),
            ),
        decreases rem@.len(),
    {
        let p = best_position(c, &rem);
        proof {
            lemma_best_pos_in_range(c@, as_ints(rem@));
        }
        let ghost before = as_ints(rem@);
        let x = rem.remove(p);
        assert(as_ints(rem@) =~= before.remove(p as int));
        assert(rank_order(c@, before) == seq![before[p as int]] + rank_order(c@, as_ints(rem@)));
        let ghost old_order = as_ints(order@);
        order.push(x);
        assert(as_ints(order@) =~= old_order.push(x as int));
        assert(as_ints(order@) + rank_order(c@, as_ints(rem@)) =~= old_order + rank_order(
            c@,
            before,
        ));
    }
    assert(as_ints(rem@) =~= Seq::<int>::empty());
    assert(as_ints(order@) + rank_order(c@, as_ints(rem@)) =~= as_ints(order@));
    order
}

/// Indices of the candidates kept by greedy non-maximum suppression, in
/// processing order: highest score first, earlier index first among equal
/// scores; a candidate is kept when its score exceeds `NMS_SCORE_MIN` and no
/// box kept before it overlaps it by more than `NMS_IOU_PERCENT` percent.
pub fn non_max_suppression(c: &Vec<Candidate>) -> (kept: Vec<usize>)
    ensures
        as_ints(kept@) == nms_spec(c@),
        forall|k: int| 0 <= k < kept@.len() ==> (#[trigger] kept@[k]) < c@.len(),
{
    let order = rank_candidates(c);
    let mut kept: Vec<usize> = Vec::new();
    let mut t: usize = 0;
    while t < order.len()
        invariant
            t <= order@.len(),
            forall|k: int| 0 <= k < order@.len() ==> (#[trigger] order@[k]) < c@.len(),
            forall|k: int| 0 <= k < kept@.len() ==> (#[trigger] kept@[k]) < c@.len(),
            as_ints(order@) == rank_order(c@, index_range(0, c@.len() as int)),
            as_ints(kept@) == greedy_keep(c@, as_ints(order@).subrange(0, t as int)),
        decreases order@.len() - t,
    {
        let idx = order[t];
        let ghost prefix = as_ints(order@).subrange(0, t + 1);
        assert(prefix.drop_last() =~= as_ints(order@).subrange(0, t as int));
        let mut ok = c[idx].score > NMS_SCORE_MIN;
        let mut k: usize = 0;
        while k < kept.len()
            invariant
                idx < c@.len(),
                k <= kept@.len(),
                forall|j: int| 0 <= j < kept@.len() ==> (#[trigger] kept@[j]) < c@.len(),
                ok == (c@[idx as int].score > NMS_SCORE_MIN && forall|j: int|
                    0 <= j < k ==> !suppresses(
                        #[trigger] c@[as_ints(kept@)[j]].rect,
                        c@[idx as int].rect,
                    )),
            decreases kept@.len() - k,
        {
            assert(as_ints(kept@)[k as int] == kept@[k as int] as int);
            if suppresses_exec(&c[kept[k]].rect, &c[idx].rect) {
                ok = false;
            }
            k = k + 1;
        }
        let ghost old_kept = as_ints(kept@);
        if ok {
            kept.push(idx);
            assert(as_ints(kept@) =~= old_kept.push(idx as int));
        }
        t = t + 1;
    }
    assert(as_ints(order@).subrange(0, order@.len() as int) =~= as_ints(order@));
    kept
}

proof fn lemma_best_pos_beats_rest(c: Seq<Candidate>, rem: Seq<int>)
    requires
        rem.no_duplicates(),
        rem.len() > 0,
    ensures
        0 <= best_pos(c, rem) < rem.len(),
        forall|k: int|
            0 <= k < rem.len() && k != best_pos(c, rem) ==> ranks_before(
                c,
                rem[best_pos(c, rem)],
                #[trigger] rem[k],
            ),
    decreases rem.len(),
{
    lemma_best_pos_in_range(c, rem);
    if rem.len() > 1 {
        let d = rem.drop_last();
        assert(d.no_duplicates()) by {
            assert forall|i: int, j: int| 0 <= i < d.len() && 0 <= j < d.len() && i != j implies d[i]
                != d[j] by {
                assert(d[i] == rem[i] && d[j] == rem[j]);
            }
        }
        lemma_best_pos_beats_rest(c, d);
        let p = best_pos(c, d);
        let last = rem.len() - 1;
        assert(rem[p] != rem[last]);
        assert forall|k: int| 0 <= k < rem.len() && k != best_pos(c, rem) implies ranks_before(
            c,
            rem[best_pos(c, rem)],
            #[trigger] rem[k],
        ) by {
            if k < last && k != p {
                assert(d[k] == rem[k]);
            }
        }
    }
}

/// Every index of `rem` appears in its processing order, and each comes
/// before the ones after it.
proof fn lemma_rank_order_sorted(c: Seq<Candidate>, rem: Seq<int>)
    requires
        rem.no_duplicates(),
    ensures
        rank_order(c, rem).len() == rem.len(),
        forall|i: int| 0 <= i < rem.len() ==> rem.contains(#[trigger] rank_order(c, rem)[i]),
        forall|i: int, j: int|
            0 <= i < j < rem.len() ==> ranks_before(
                c,
                #[trigger] rank_order(c, rem)[i],
                #[trigger] rank_order(c, rem)[j],
            ),
    decreases rem.len(),
{
    if rem.len() > 0 {
        lemma_best_pos_beats_rest(c, rem);
        let p = best_pos(c, rem);
        let r = rem.remove(p);
        assert(r.no_duplicates()) by {
            assert forall|i: int, j: int| 0 <= i < r.len() && 0 <= j < r.len() && i != j implies r[i]
                != r[j] by {
                let i2 = if i < p { i } else { i + 1 };
                let j2 = if j < p { j } else { j + 1 };
                assert(r[i] == rem[i2] && r[j] == rem[j2]);
            }
        }
        lemma_rank_order_sorted(c, r);
        let o = rank_order(c, rem);
        let rest = rank_order(c, r);
        assert(o == seq![rem[p]] + rest);
        assert forall|i: int| 0 <= i < rem.len() implies rem.contains(#[trigger] o[i]) by {
            if i == 0 {
                assert(rem[p] == o[0]);
            } else {
                assert(o[i] == rest[i - 1]);
                assert(r.contains(rest[i - 1]));
                let m = choose|m: int| 0 <= m < r.len() && r[m] == rest[i - 1];
                let m2 = if m < p { m } else { m + 1 };
                assert(rem[m2] == o[i]);
            }
        }
        assert forall|i: int, j: int| 0 <= i < j < rem.len() implies ranks_before(
            c,
            #[trigger] o[i],
            #[trigger] o[j],
        ) by {
            assert(o[j] == rest[j - 1]);
            if i == 0 {
                assert(r.contains(rest[j - 1]));
                let m = choose|m: int| 0 <= m < r.len() && r[m] == rest[j - 1];
                let m2 = if m < p { m } else { m + 1 };
                assert(rem[m2] == o[j]);
                assert(m2 != p);
            } else {
                assert(o[i] == rest[i - 1]);
            }
        }
    }
}

/// What greedy suppression keeps from a sorted order: indices of that order,
/// still sorted, each above the score threshold, and no kept box suppressing
/// a later kept one.
proof fn lemma_greedy_keep_props(c: Seq<Candidate>, order: Seq<int>)
    requires
        forall|i: int, j: int|
            0 <= i < j < order.len() ==> ranks_before(c, #[trigger] order[i], #[trigger] order[j]),
    ensures
        forall|i: int|
            0 <= i < greedy_keep(c, order).len() ==> order.contains(
                #[trigger] greedy_keep(c, order)[i],
            ),
        forall|i: int|
            0 <= i < greedy_keep(c, order).len() ==> c[#[trigger] greedy_keep(c, order)[i]].score
                > NMS_SCORE_MIN,
        forall|i: int, j: int|
            0 <= i < j < greedy_keep(c, order).len() ==> ranks_before(
                c,
                #[trigger] greedy_keep(c, order)[i],
                #[trigger] greedy_keep(c, order)[j],
            ),
        forall|i: int, j: int|
            0 <= i < j < greedy_keep(c, order).len() ==> !suppresses(
                c[#[trigger] greedy_keep(c, order)[i]].rect,
                c[#[trigger] greedy_keep(c, order)[j]].rect,
            ),
    decreases order.len(),
{
    if order.len() > 0 {
        let pre = order.drop_last();
        assert forall|i: int, j: int| 0 <= i < j < pre.len() implies ranks_before(
            c,
            #[trigger] pre[i],
            #[trigger] pre[j],
        ) by {
            assert(pre[i] == order[i] && pre[j] == order[j]);
        }
        lemma_greedy_keep_props(c, pre);
        let kept = greedy_keep(c, pre);
        let k = greedy_keep(c, order);
        assert forall|i: int| 0 <= i < kept.len() implies order.contains(#[trigger] kept[i]) && ranks_before(c, kept[i], order.last()) by {
            assert(pre.contains(kept[i]));
            let m = choose|m: int| 0 <= m < pre.len() && pre[m] == kept[i];
            assert(order[m] == kept[i]);
        }
        if k != kept {
            assert(k == kept.push(order.last()));
            assert forall|i: int| 0 <= i < k.len() implies order.contains(#[trigger] k[i]) by {
                if i == k.len() - 1 {
                    assert(order[order.len() - 1] == k[i]);
                } else {
                    assert(k[i] == kept[i]);
                }
            }
            assert forall|i: int, j: int| 0 <= i < j < k.len() implies ranks_before(
                c,
                #[trigger] k[i],
                #[trigger] k[j],
            ) && !suppresses(c[k[i]].rect, c[k[j]].rect) by {
                assert(k[i] == kept[i]);
                if j < k.len() - 1 {
                    assert(k[j] == kept[j]);
                }
            }
            assert forall|i: int| 0 <= i < k.len() implies c[#[trigger] k[i]].score > NMS_SCORE_MIN by {
                if i < k.len() - 1 {
                    assert(k[i] == kept[i]);
                }
            }
        }
    }
}

/// A sequence already in processing order keeps its order.
proof fn lemma_rank_order_of_sorted(d: Seq<Candidate>, a: int, n: int)
    requires
        0 <= a <= n,
        forall|i: int, j: int| a <= i < j < n ==> #[trigger] ranks_before(d, i, j),
    ensures
        rank_order(d, index_range(a, n)) == index_range(a, n),
    decreases n - a,
{
    let rem = index_range(a, n);
    if a < n {
        assert(rem.no_duplicates());
        lemma_best_pos_beats_rest(d, rem);
        let p = best_pos(d, rem);
        if p != 0 {
            assert(ranks_before(d, rem[p], rem[0]));
            assert(ranks_before(d, a, a + p));
        }
        assert(rem.remove(0) =~= index_range(a + 1, n));
        lemma_rank_order_of_sorted(d, a + 1, n);
        assert(rank_order(d, rem) =~= rem);
    } else {
        assert(rank_order(d, rem) =~= rem);
    }
}

/// Candidates that pass the score threshold and do not suppress one another
/// are all kept.
proof fn lemma_greedy_keeps_all(d: Seq<Candidate>, m: int)
    requires
        0 <= m <= d.len(),
        forall|i: int| 0 <= i < d.len() ==> (#[trigger] d[i]).score > NMS_SCORE_MIN,
        forall|i: int, j: int|
            0 <= i < j < d.len() ==> !suppresses((#[trigger] d[i]).rect, (#[trigger] d[j]).rect),
    ensures
        greedy_keep(d, index_range(0, m)) == index_range(0, m),
    decreases m,
{
    let r = index_range(0, m);
    if m > 0 {
        assert(r.drop_last() =~= index_range(0, m - 1));
        lemma_greedy_keeps_all(d, m - 1);
        let kept = index_range(0, m - 1);
        assert forall|k: int| 0 <= k < kept.len() implies !suppresses(
            #[trigger] d[kept[k]].rect,
            d[m - 1].rect,
        ) by {
            assert(kept[k] == k);
        }
        assert(greedy_keep(d, r) == kept.push(m - 1));
        assert(kept.push(m - 1) =~= r);
    } else {
        assert(greedy_keep(d, r) =~= r);
    }
}

/// Suppression is idempotent: running it again on the candidates it kept
/// keeps all of them, in the same order.
pub proof fn lemma_nms_idempotent(c: Seq<Candidate>)
    ensures
        nms_kept(nms_kept(c)) == nms_kept(c),
{
    let n = c.len() as int;
    let all = index_range(0, n);
    assert(all.no_duplicates());
    lemma_rank_order_sorted(c, all);
    let o = rank_order(c, all);
    lemma_greedy_keep_props(c, o);
    let k = greedy_keep(c, o);
    let d = nms_kept(c);
    let m = d.len() as int;
    assert forall|i: int, j: int| 0 <= i < j < m implies #[trigger] ranks_before(d, i, j) by {
        assert(ranks_before(c, k[i], k[j]));
    }
    lemma_rank_order_of_sorted(d, 0, m);
    assert forall|i: int| 0 <= i < m implies (#[trigger] d[i]).score > NMS_SCORE_MIN by {
        assert(d[i] == c[k[i]]);
    }
    assert forall|i: int, j: int| 0 <= i < j < m implies !suppresses(
        (#[trigger] d[i]).rect,
        (#[trigger] d[j]).rect,
    ) by {
        assert(d[i] == c[k[i]] && d[j] == c[k[j]]);
    }
    lemma_greedy_keeps_all(d, m);
    assert(nms_spec(d) == index_range(0, m));
    assert(nms_kept(d) =~= d);
}

/// Every kept candidate is one of the input candidates.
pub proof fn lemma_nms_kept_from_input(c: Seq<Candidate>)
    ensures
        forall|k: int|
            0 <= k < nms_kept(c).len() ==> exists|j: int|
                0 <= j < c.len() && c[j] == #[trigger] nms_kept(c)[k],
{
    let all = index_range(0, c.len() as int);
    assert(all.no_duplicates());
    lemma_rank_order_sorted(c, all);
    let o = rank_order(c, all);
    lemma_greedy_keep_props(c, o);
    let kept = greedy_keep(c, o);
    assert forall|k: int| 0 <= k < nms_kept(c).len() implies exists|j: int|
        0 <= j < c.len() && c[j] == #[trigger] nms_kept(c)[k] by {
        assert(o.contains(kept[k]));
        let m = choose|m: int| 0 <= m < o.len() && o[m] == kept[k];
        assert(all.contains(o[m]));
        let j = choose|j: int| 0 <= j < all.len() && all[j] == o[m];
        assert(nms_kept(c)[k] == c[j]);
    }
}

} // verus!
