use vstd::prelude::*;

use crate::detection::trunc_div;

verus! {

/// Font scale as fractions of the region height: horizontally
/// `height / x_div`, vertically `height / y_div`.
#[derive(Clone, Copy, Debug, PartialEq, Eq, Structural)]
pub struct Scale {
    pub x_div: u32,
    pub y_div: u32,
}

/// The scale for a region `width` pixels wide holding `n_words` words: the
/// width rule first, then the word-count rule, which wins where it applies.
pub open spec fn scale_spec(width: int, n_words: int) -> Scale {
    if n_words >= 16 {
        Scale { x_div: 14, y_div: 16 }
    } else if n_words >= 14 {
        Scale { x_div: 12, y_div: 14 }
    } else if n_words >= 12 {
        Scale { x_div: 10, y_div: 12 }
    } else if n_words >= 10 {
        Scale { x_div: 8, y_div: 10 }
    } else if n_words <= 2 {
        Scale { x_div: 7, y_div: 9 }
    } else if width < 55 {
        Scale { x_div: 8, y_div: 12 }
    } else if width < 100 {
        Scale { x_div: 10, y_div: 14 }
    } else {
        Scale { x_div: 9, y_div: 12 }
    }
}

pub fn choose_scale(width: u32, n_words: usize) -> (s: Scale)
    ensures
        s == scale_spec(width as int, n_words as int),
{
    let mut s = Scale { x_div: 9, y_div: 12 };
    if width < 55 {
        s = Scale { x_div: 8, y_div: 12 };
    } else if width < 100 {
        s = Scale { x_div: 10, y_div: 14 };
    }
    if n_words >= 16 {
        s = Scale { x_div: 14, y_div: 16 };
    } else if n_words >= 14 {
        s = Scale { x_div: 12, y_div: 14 };
    } else if n_words >= 12 {
        s = Scale { x_div: 10, y_div: 12 };
    } else if n_words >= 10 {
        s = Scale { x_div: 8, y_div: 10 };
    } else if n_words <= 2 {
        s = Scale { x_div: 7, y_div: 9 };
    }
    s
}

/// Rendered size, in pixels, of one character at the chosen scale.
///
/// Text is measured from these alone: a line is as wide as the sum of its
/// characters' advance widths (kerning between pairs is not counted) and as
/// high as its tallest character.
#[derive(Clone, Copy, Debug, PartialEq, Eq, Structural)]
pub struct Glyph {
    pub ch: char,
    pub width: u32,
    pub height: u32,
}

/// Width of `c`: that of its first entry in `g`, zero where it has none.
pub open spec fn glyph_width(g: Seq<Glyph>, c: char) -> int
    decreases g.len(),
{
    if g.len() == 0 {
        0
    } else if g[0].ch == c {
        g[0].width as int
    } else {
        glyph_width(g.drop_first(), c)
    }
}

/// Height of `c`: that of its first entry in `g`, zero where it has none.
pub open spec fn glyph_height(g: Seq<Glyph>, c: char) -> int
    decreases g.len(),
{
    if g.len() == 0 {
        0
    } else if g[0].ch == c {
        g[0].height as int
    } else {
        glyph_height(g.drop_first(), c)
    }
}

/// Width of a line: the sum of its characters' widths.
pub open spec fn text_width(g: Seq<Glyph>, s: Seq<char>) -> int
    decreases s.len(),
{
    if s.len() == 0 {
        0
    } else {
        text_width(g, s.drop_last()) + glyph_width(g, s.last())
    }
}

/// Height of a line: the largest height of its characters, zero when empty.
pub open spec fn text_height(g: Seq<Glyph>, s: Seq<char>) -> int
    decreases s.len(),
{
    if s.len() == 0 {
        0
    } else {
        let h = text_height(g, s.drop_last());
        let c = glyph_height(g, s.last());
        if c > h {
            c
        } else {
            h
        }
    }
}

/// The pieces of `s` between single spaces, as `str::split(' ')` gives them.
pub open spec fn split_spaces(s: Seq<char>) -> Seq<Seq<char>>
    decreases s.len(),
{
    if s.len() == 0 {
        seq![Seq::empty()]
    } else {
        let w = split_spaces(s.drop_last());
        if s.last() == ' ' {
            w.push(Seq::empty())
        } else {
            w.update(w.len() - 1, w.last().push(s.last()))
        }
    }
}

/// The words joined by single spaces.
pub open spec fn join_words(ws: Seq<Seq<char>>) -> Seq<char>
    decreases ws.len(),
{
    if ws.len() == 0 {
        Seq::empty()
    } else if ws.len() == 1 {
        ws[0]
    } else {
        join_words(ws.drop_last()) + seq![' '] + ws.last()
    }
}

pub open spec fn views(v: Seq<Vec<char>>) -> Seq<Seq<char>> {
    v.map_values(|w: Vec<char>| w@)
}

/// The largest width a glyph may have.
pub const GLYPH_MAX: u64 = 0xffff_ffff;

proof fn lemma_text_width_bound(g: Seq<Glyph>, s: Seq<char>)
    ensures
        0 <= text_width(g, s) <= s.len() * GLYPH_MAX,
        0 <= text_height(g, s) <= GLYPH_MAX,
    decreases s.len(),
{
    if s.len() > 0 {
        lemma_text_width_bound(g, s.drop_last());
        lemma_glyph_bounds(g, s.last());
    }
}

proof fn lemma_glyph_bounds(g: Seq<Glyph>, c: char)
    ensures
        0 <= glyph_width(g, c) <= GLYPH_MAX,
        0 <= glyph_height(g, c) <= GLYPH_MAX,
    decreases g.len(),
{
    if g.len() > 0 {
        lemma_glyph_bounds(g.drop_first(), c);
    }
}

/// Width and height of `c` in `g`.
pub fn glyph_size(g: &Vec<Glyph>, c: char) -> (r: (u32, u32))
    ensures
        r.0 == glyph_width(g@, c),
        r.1 == glyph_height(g@, c),
{
    let mut i: usize = 0;
    assert(g@.subrange(0, g@.len() as int) =~= g@);
    while i < g.len()
        invariant
            i <= g@.len(),
            glyph_width(g@, c) == glyph_width(g@.subrange(i as int, g@.len() as int), c),
            glyph_height(g@, c) == glyph_height(g@.subrange(i as int, g@.len() as int), c),
        decreases g@.len() - i,
    {
        let ghost rest = g@.subrange(i as int, g@.len() as int);
        assert(rest.drop_first() =~= g@.subrange(i + 1, g@.len() as int));
        if g[i].ch == c {
            return (g[i].width, g[i].height);
        }
        i = i + 1;
    }
    (0, 0)
}

/// Width of `s` in pixels.
pub fn measure_width(g: &Vec<Glyph>, s: &Vec<char>) -> (w: u128)
    ensures
        w == text_width(g@, s@),
        w <= s@.len() * GLYPH_MAX,
{
    let mut w: u128 = 0;
    let mut i: usize = 0;
    proof {
        lemma_text_width_bound(g@, s@);
    }
    while i < s.len()
        invariant
            i <= s@.len(),
            w == text_width(g@, s@.subrange(0, i as int)),
            w <= i * GLYPH_MAX,
        decreases s@.len() - i,
    {
        assert(s@.subrange(0, i + 1).drop_last() =~= s@.subrange(0, i as int));
        let (cw, _) = glyph_size(g, s[i]);
        w = w + cw as u128;
        i = i + 1;
    }
    assert(s@.subrange(0, s@.len() as int) =~= s@);
    w
}

/// Height of `s` in pixels.
pub fn measure_height(g: &Vec<Glyph>, s: &Vec<char>) -> (h: u32)
    ensures
        h == text_height(g@, s@),
{
    let mut h: u32 = 0;
    let mut i: usize = 0;
    while i < s.len()
        invariant
            i <= s@.len(),
            h == text_height(g@, s@.subrange(0, i as int)),
        decreases s@.len() - i,
    {
        assert(s@.subrange(0, i + 1).drop_last() =~= s@.subrange(0, i as int));
        let (_, ch) = glyph_size(g, s[i]);
        if ch > h {
            h = ch;
        }
        i = i + 1;
    }
    assert(s@.subrange(0, s@.len() as int) =~= s@);
    h
}

proof fn lemma_split_nonempty(s: Seq<char>)
    ensures
        split_spaces(s).len() >= 1,
    decreases s.len(),
{
    if s.len() > 0 {
        lemma_split_nonempty(s.drop_last());
    }
}

/// The words of `s`: the pieces between single spaces.
pub fn split_words(s: &Vec<char>) -> (words: Vec<Vec<char>>)
    ensures
        views(words@) == split_spaces(s@),
{
    let mut words: Vec<Vec<char>> = Vec::new();
    let mut cur: Vec<char> = Vec::new();
    let mut i: usize = 0;
    assert(views(words@).push(cur@) =~= split_spaces(s@.subrange(0, 0)));
    while i < s.len()
        invariant
            i <= s@.len(),
            views(words@).push(cur@) == split_spaces(s@.subrange(0, i as int)),
        decreases s@.len() - i,
    {
        let ghost pre = s@.subrange(0, i as int);
        assert(s@.subrange(0, i + 1).drop_last() =~= pre);
        proof {
            lemma_split_nonempty(pre);
        }
        let c = s[i];
        if c == ' ' {
            let done = cur;
            cur = Vec::new();
            words.push(done);
            assert(views(words@).push(cur@) =~= split_spaces(pre).push(Seq::empty()));
        } else {
            let ghost w = split_spaces(pre);
            cur.push(c);
            assert(views(words@).push(cur@) =~= w.update(w.len() - 1, w.last().push(c)));
        }
        i = i + 1;
    }
    assert(s@.subrange(0, s@.len() as int) =~= s@);
    words.push(cur);
    assert(views(words@) =~= split_spaces(s@));
    words
}

/// Number of words in `s`, as `split_words` counts them.
pub fn count_words(s: &Vec<char>) -> (n: usize)
    ensures
        n == split_spaces(s@).len(),
{
    let words = split_words(s);
    assert(views(words@).len() == words@.len());
    words.len()
}

/// The words joined by single spaces.
pub fn join(ws: &Vec<Vec<char>>, from: usize, to: usize) -> (s: Vec<char>)
    requires
        from <= to <= ws@.len(),
    ensures
        s@ == join_words(views(ws@).subrange(from as int, to as int)),
{
    let mut s: Vec<char> = Vec::new();
    let mut k: usize = from;
    while k < to
        invariant
            from <= k <= to <= ws@.len(),
            s@ == join_words(views(ws@).subrange(from as int, k as int)),
        decreases to - k,
    {
        let ghost part = views(ws@).subrange(from as int, k + 1);
        assert(part.drop_last() =~= views(ws@).subrange(from as int, k as int));
        if k > from {
            s.push(' ');
        }
        let w = &ws[k];
        let ghost before = s@;
        let mut j: usize = 0;
        while j < w.len()
            invariant
                j <= w@.len(),
                s@ == before + w@.subrange(0, j as int),
            decreases w@.len() - j,
        {
            s.push(w[j]);
            j = j + 1;
            assert(s@ =~= before + w@.subrange(0, j as int));
        }
        assert(w@.subrange(0, w@.len() as int) =~= w@);
        if k == from {
            assert(part.len() == 1);
            assert(s@ =~= part[0]);
        } else {
            assert(s@ =~= join_words(part.drop_last()) + seq![' '] + part.last());
        }
        k = k + 1;
    }
    s
}

/// Characters plus one separating space per word.
pub open spec fn total_len(ws: Seq<Seq<char>>) -> int
    decreases ws.len(),
{
    if ws.len() == 0 {
        0
    } else {
        total_len(ws.drop_last()) + ws.last().len() + 1
    }
}

proof fn lemma_split_total(s: Seq<char>)
    ensures
        total_len(split_spaces(s)) == s.len() + 1,
    decreases s.len(),
{
    if s.len() > 0 {
        let pre = s.drop_last();
        lemma_split_total(pre);
        lemma_split_nonempty(pre);
        let w = split_spaces(pre);
        if s.last() != ' ' {
            let u = w.update(w.len() - 1, w.last().push(s.last()));
            assert(u.drop_last() =~= w.drop_last());
            assert(u.last() == w.last().push(s.last()));
            assert(total_len(u) == total_len(u.drop_last()) + u.last().len() + 1);
            assert(total_len(w) == total_len(w.drop_last()) + w.last().len() + 1);
            assert(split_spaces(s) == u);
        } else {
            let u = w.push(Seq::<char>::empty());
            assert(u.drop_last() =~= w);
            assert(total_len(u) == total_len(u.drop_last()) + u.last().len() + 1);
            assert(split_spaces(s) == u);
        }
    } else {
        let u = split_spaces(s);
        assert(u.drop_last() =~= Seq::<Seq<char>>::empty());
        assert(total_len(u) == total_len(u.drop_last()) + u.last().len() + 1);
    }
}

proof fn lemma_total_prefix(ws: Seq<Seq<char>>, i: int)
    requires
        0 <= i <= ws.len(),
    ensures
        0 <= total_len(ws.subrange(0, i)) <= total_len(ws),
    decreases ws.len(),
{
    if i < ws.len() {
        lemma_total_prefix(ws.drop_last(), i);
        assert(ws.drop_last().subrange(0, i) =~= ws.subrange(0, i));
    } else {
        assert(ws.subrange(0, i) =~= ws);
        lemma_total_nonneg(ws);
    }
}

proof fn lemma_total_nonneg(ws: Seq<Seq<char>>)
    ensures
        total_len(ws) >= 0,
    decreases ws.len(),
{
    if ws.len() > 0 {
        lemma_total_nonneg(ws.drop_last());
    }
}

/// State of the greedy first pass after the given words: finished lines,
/// the line being filled, and its width.
pub open spec fn pass1_state(g: Seq<Glyph>, words: Seq<Seq<char>>, avail: int) -> (
    Seq<Seq<char>>,
    Seq<char>,
    int,
)
    decreases words.len(),
{
    if words.len() == 0 {
        (Seq::empty(), Seq::empty(), 0)
    } else {
        let (lines, cur, cw) = pass1_state(g, words.drop_last(), avail);
        let word = words.last();
        let ww = text_width(g, word);
        let sp = glyph_width(g, ' ');
        if cw + ww + sp > avail {
            (lines.push(cur), word, ww)
        } else if lines.len() == 0 && cur.len() == 0 {
            (lines, word, ww)
        } else {
            (lines, cur + seq![' '] + word, cw + sp + ww)
        }
    }
}

/// Lines of the greedy first pass: a word joins the current line while the
/// line's width, the word's and a space's stay within `avail`.
pub open spec fn pass1(g: Seq<Glyph>, words: Seq<Seq<char>>, avail: int) -> Seq<Seq<char>> {
    let (lines, cur, _) = pass1_state(g, words, avail);
    lines.push(cur)
}

/// Number of leading characters of `line` kept before a hyphen: the largest
/// `k` up to the given one whose prefix and a hyphen fit, or zero.
pub open spec fn keep_chars(g: Seq<Glyph>, line: Seq<char>, k: int, avail: int) -> int
    decreases k,
{
    if k <= 0 {
        0
    } else if text_width(g, line.subrange(0, k)) + glyph_width(g, '-') <= avail {
        k
    } else {
        keep_chars(g, line, k - 1, avail)
    }
}

/// Number of leading words kept on a line: the largest `k` up to the given
/// one whose words, joined, fit, or zero.
pub open spec fn keep_words(g: Seq<Glyph>, ws: Seq<Seq<char>>, k: int, avail: int) -> int
    decreases k,
{
    if k <= 0 {
        0
    } else if text_width(g, join_words(ws.subrange(0, k))) <= avail {
        k
    } else {
        keep_words(g, ws, k - 1, avail)
    }
}

/// What the second pass makes of one line: a line that fits stays (an empty
/// one is dropped); an overlong single word is cut and hyphenated, its rest
/// following on a continuation line; an overlong line of several words moves
/// trailing words to a continuation line.
pub open spec fn split_line(g: Seq<Glyph>, line: Seq<char>, avail: int) -> Seq<Seq<char>> {
    if text_width(g, line) <= avail {
        if line.len() == 0 {
            Seq::empty()
        } else {
            seq![line]
        }
    } else if split_spaces(line).len() == 1 {
        let k = keep_chars(g, line, line.len() as int, avail);
        let head = line.subrange(0, k).push('-');
        let tail = line.subrange(k, line.len() as int);
        if tail.len() == 0 {
            seq![head]
        } else {
            seq![head, tail]
        }
    } else {
        let ws = split_spaces(line);
        let k = keep_words(g, ws, ws.len() as int, avail);
        seq![join_words(ws.subrange(0, k)), join_words(ws.subrange(k, ws.len() as int))]
    }
}

pub open spec fn pass2(g: Seq<Glyph>, lines: Seq<Seq<char>>, avail: int) -> Seq<Seq<char>>
    decreases lines.len(),
{
    if lines.len() == 0 {
        Seq::empty()
    } else {
        pass2(g, lines.drop_last(), avail) + split_line(g, lines.last(), avail)
    }
}

/// The lines that `text` is wrapped into for an available width of `avail`.
pub open spec fn wrapped_lines(g: Seq<Glyph>, text: Seq<char>, avail: int) -> Seq<Seq<char>> {
    pass2(g, pass1(g, split_spaces(text), avail), avail)
}

proof fn lemma_pass1_width_bound(g: Seq<Glyph>, words: Seq<Seq<char>>, avail: int)
    ensures
        0 <= pass1_state(g, words, avail).2 <= total_len(words) * GLYPH_MAX,
    decreases words.len(),
{
    if words.len() > 0 {
        lemma_pass1_width_bound(g, words.drop_last(), avail);
        lemma_text_width_bound(g, words.last());
        lemma_glyph_bounds(g, ' ');
        lemma_total_nonneg(words.drop_last());
    }
}

fn copy_chars(s: &Vec<char>) -> (r: Vec<char>)
    ensures
        r@ == s@,
{
    slice_chars(s, 0, s.len())
}

/// The characters of `s` from `from` up to `to`.
fn slice_chars(s: &Vec<char>, from: usize, to: usize) -> (r: Vec<char>)
    requires
        from <= to <= s@.len(),
    ensures
        r@ == s@.subrange(from as int, to as int),
{
    let mut r: Vec<char> = Vec::new();
    let mut i: usize = from;
    while i < to
        invariant
            from <= i <= to <= s@.len(),
            r@ =~= s@.subrange(from as int, i as int),
        decreases to - i,
    {
        r.push(s[i]);
        i = i + 1;
        assert(r@ =~= s@.subrange(from as int, i as int));
    }
    r
}

/// The greedy first pass over `words`.
fn wrap_greedy(g: &Vec<Glyph>, words: &Vec<Vec<char>>, avail: i128) -> (lines: Vec<Vec<char>>)
    requires
        total_len(views(words@)) <= 0x1_0000_0000_0000_0001,
    ensures
        views(lines@) == pass1(g@, views(words@), avail as int),
{
    let (sp32, _) = glyph_size(g, ' ');
    let sp = sp32 as i128;
    let mut lines: Vec<Vec<char>> = Vec::new();
    let mut cur: Vec<char> = Vec::new();
    let mut cw: i128 = 0;
    let mut i: usize = 0;
    while i < words.len()
        invariant
            i <= words@.len(),
            sp == glyph_width(g@, ' '),
            total_len(views(words@)) <= 0x1_0000_0000_0000_0001,
            pass1_state(g@, views(words@).subrange(0, i as int), avail as int) == (
                views(lines@),
                cur@,
                cw as int,
            ),
        decreases words@.len() - i,
    {
        let ghost pre = views(words@).subrange(0, i as int);
        let ghost pre1 = views(words@).subrange(0, i + 1);
        assert(pre1.drop_last() =~= pre);
        assert(pre1.last() == words@[i as int]@);
        proof {
            lemma_pass1_width_bound(g@, pre, avail as int);
            lemma_total_prefix(views(words@), i as int);
            lemma_total_prefix(views(words@), i + 1);
            lemma_text_width_bound(g@, words@[i as int]@);
            lemma_glyph_bounds(g@, ' ');
            lemma_total_nonneg(pre);
            assert(total_len(pre) * GLYPH_MAX <= 0x1_0000_0000_0000_0001 * GLYPH_MAX)
                by (nonlinear_arith)
                requires
                    0 <= total_len(pre) <= 0x1_0000_0000_0000_0001,
            ;
            assert(words@[i as int]@.len() * GLYPH_MAX <= 0x1_0000_0000_0000_0001 * GLYPH_MAX)
                by (nonlinear_arith)
                requires
                    0 <= words@[i as int]@.len() <= 0x1_0000_0000_0000_0001,
            ;
        }
        let word = &words[i];
        let ww = measure_width(g, word) as i128;
        let ghost lines_before = views(lines@);
        if cw + ww + sp > avail {
            let done = cur;
            lines.push(done);
            cur = copy_chars(word);
            cw = ww;
            assert(views(lines@) =~= lines_before.push(done@));
        } else if lines.len() == 0 && cur.len() == 0 {
            cur = copy_chars(word);
            cw = ww;
        } else {
            let ghost cur_before = cur@;
            cur.push(' ');
            let mut j: usize = 0;
            while j < word.len()
                invariant
                    j <= word@.len(),
                    cur@ == cur_before + seq![' '] + word@.subrange(0, j as int),
                decreases word@.len() - j,
            {
                cur.push(word[j]);
                j = j + 1;
                assert(cur@ =~= cur_before + seq![' '] + word@.subrange(0, j as int));
            }
            assert(word@.subrange(0, word@.len() as int) =~= word@);
            cw = cw + sp + ww;
        }
        i = i + 1;
    }
    assert(views(words@).subrange(0, words@.len() as int) =~= views(words@));
    let ghost lines_before = views(lines@);
    let last = cur;
    lines.push(last);
    assert(views(lines@) =~= lines_before.push(last@));
    lines
}

/// The lines that one first-pass line becomes in the second pass.
fn split_overlong(g: &Vec<Glyph>, line: &Vec<char>, avail: i128) -> (out: Vec<Vec<char>>)
    ensures
        views(out@) == split_line(g@, line@, avail as int),
{
    proof {
        lemma_text_width_bound(g@, line@);
        lemma_glyph_bounds(g@, '-');
    }
    let ll = line.len();
    let w = measure_width(g, line);
    proof {
        lemma_width_in_range(ll as int, w as int);
    }
    let mut out: Vec<Vec<char>> = Vec::new();
    if w as i128 <= avail {
        if line.len() > 0 {
            out.push(copy_chars(line));
            assert(views(out@) =~= seq![line@]);
        } else {
            assert(views(out@) =~= Seq::<Seq<char>>::empty());
        }
        return out;
    }
    let words = split_words(line);
    if words.len() == 1 {
        let (hy32, _) = glyph_size(g, '-');
        let hy = hy32 as i128;
        let mut k: usize = line.len();
        while k > 0 && !prefix_fits(g, line, k, hy, avail)
            invariant
                k <= line@.len(),
                hy == glyph_width(g@, '-'),
                keep_chars(g@, line@, line@.len() as int, avail as int) == keep_chars(
                    g@,
                    line@,
                    k as int,
                    avail as int,
                ),
            decreases k,
        {
            k = k - 1;
        }
        let mut head = slice_chars(line, 0, k);
        head.push('-');
        let tail = slice_chars(line, k, line.len());
        let tail_empty = tail.len() == 0;
        let ghost hv = head@;
        let ghost tv = tail@;
        assert(keep_chars(g@, line@, line@.len() as int, avail as int) == k);
        out.push(head);
        if !tail_empty {
            out.push(tail);
            assert(views(out@) =~= seq![hv, tv]);
        } else {
            assert(views(out@) =~= seq![hv]);
        }
    } else {
        let n = words.len();
        let mut k: usize = n;
        while k > 0 && !words_fit(g, &words, k, avail)
            invariant
                k <= n,
                n == words@.len(),
                views(words@) == split_spaces(line@),
                keep_words(g@, views(words@), n as int, avail as int) == keep_words(
                    g@,
                    views(words@),
                    k as int,
                    avail as int,
                ),
            decreases k,
        {
            k = k - 1;
        }
        let head = join(&words, 0, k);
        let tail = join(&words, k, n);
        let ghost hv = head@;
        let ghost tv = tail@;
        assert(keep_words(g@, views(words@), n as int, avail as int) == k);
        out.push(head);
        out.push(tail);
        assert(views(out@) =~= seq![hv, tv]);
    }
    assert(views(out@) =~= split_line(g@, line@, avail as int));
    out
}

proof fn lemma_width_in_range(len: int, w: int)
    requires
        0 <= len <= usize::MAX,
        0 <= w <= len * GLYPH_MAX,
    ensures
        w <= 0x1_0000_0000_0000_0000_0000_0000,
{
    assert(len * GLYPH_MAX <= 0x1_0000_0000_0000_0000 * GLYPH_MAX) by (nonlinear_arith)
        requires
            0 <= len <= usize::MAX,
    ;
}

/// The first `k` characters of `line` and a hyphen fit within `avail`.
fn prefix_fits(g: &Vec<Glyph>, line: &Vec<char>, k: usize, hy: i128, avail: i128) -> (r: bool)
    requires
        k <= line@.len(),
        hy == glyph_width(g@, '-'),
    ensures
        r == (text_width(g@, line@.subrange(0, k as int)) + glyph_width(g@, '-') <= avail),
{
    let head = slice_chars(line, 0, k);
    let hl = head.len();
    let hw = measure_width(g, &head);
    proof {
        lemma_width_in_range(hl as int, hw as int);
        lemma_glyph_bounds(g@, '-');
    }
    (hw as i128) + hy <= avail
}

/// The first `k` words, joined, fit within `avail`.
fn words_fit(g: &Vec<Glyph>, words: &Vec<Vec<char>>, k: usize, avail: i128) -> (r: bool)
    requires
        k <= words@.len(),
    ensures
        r == (text_width(g@, join_words(views(words@).subrange(0, k as int))) <= avail),
{
    let head = join(words, 0, k);
    let hl = head.len();
    let hw = measure_width(g, &head);
    proof {
        lemma_width_in_range(hl as int, hw as int);
    }
    (hw as i128) <= avail
}

/// The second pass over all first-pass lines.
fn split_all(g: &Vec<Glyph>, lines: &Vec<Vec<char>>, avail: i128) -> (out: Vec<Vec<char>>)
    ensures
        views(out@) == pass2(g@, views(lines@), avail as int),
{
    let mut out: Vec<Vec<char>> = Vec::new();
    let mut i: usize = 0;
    while i < lines.len()
        invariant
            i <= lines@.len(),
            views(out@) == pass2(g@, views(lines@).subrange(0, i as int), avail as int),
        decreases lines@.len() - i,
    {
        let ghost pre1 = views(lines@).subrange(0, i + 1);
        assert(pre1.drop_last() =~= views(lines@).subrange(0, i as int));
        let parts = split_overlong(g, &lines[i], avail);
        let ghost before = views(out@);
        let mut j: usize = 0;
        while j < parts.len()
            invariant
                j <= parts@.len(),
                views(out@) == before + views(parts@).subrange(0, j as int),
            decreases parts@.len() - j,
        {
            let piece = copy_chars(&parts[j]);
            let ghost out_before = views(out@);
            out.push(piece);
            assert(views(out@) =~= out_before.push(parts@[j as int]@));
            assert(views(parts@).subrange(0, j + 1) =~= views(parts@).subrange(0, j as int).push(
                parts@[j as int]@,
            ));
            j = j + 1;
            assert(views(out@) =~= before + views(parts@).subrange(0, j as int));
        }
        assert(views(parts@).subrange(0, parts@.len() as int) =~= views(parts@));
        i = i + 1;
    }
    assert(views(lines@).subrange(0, lines@.len() as int) =~= views(lines@));
    out
}

/// Wraps `text` into lines no wider than `avail` where the words allow it.
pub fn wrap_text(g: &Vec<Glyph>, text: &Vec<char>, avail: i128) -> (lines: Vec<Vec<char>>)
    ensures
        views(lines@) == wrapped_lines(g@, text@, avail as int),
{
    let _len = text.len();
    let words = split_words(text);
    proof {
        lemma_split_total(text@);
    }
    let first = wrap_greedy(g, &words, avail);
    split_all(g, &first, avail)
}

/// A wrapped line and the pixel position of its top-left corner in the
/// region.
#[derive(Clone, Debug)]
pub struct PlacedLine {
    pub text: Vec<char>,
    pub x: i128,
    pub y: i128,
}

/// Sum of the heights of the first `i` lines.
pub open spec fn heights_before(g: Seq<Glyph>, lines: Seq<Seq<char>>, i: int) -> int
    decreases i,
{
    if i <= 0 || i > lines.len() {
        0
    } else {
        heights_before(g, lines, i - 1) + text_height(g, lines[i - 1])
    }
}

/// Top of the text block: the block, counted as the number of lines times
/// the first line's height, is centred vertically.
pub open spec fn block_top(g: Seq<Glyph>, lines: Seq<Seq<char>>, rect_h: int) -> int {
    trunc_div(rect_h - lines.len() * text_height(g, lines[0]), 2)
}

/// Left edge of a line centred horizontally.
pub open spec fn line_x(g: Seq<Glyph>, line: Seq<char>, rect_w: int) -> int {
    trunc_div(rect_w - text_width(g, line), 2)
}

/// Top of line `i`: below the block top by the heights of the lines above.
pub open spec fn line_y(g: Seq<Glyph>, lines: Seq<Seq<char>>, rect_h: int, i: int) -> int {
    block_top(g, lines, rect_h) + heights_before(g, lines, i)
}

/// Width available to text in a region `rect_w` wide with `padding` on
/// each side.
pub open spec fn available_width(rect_w: int, padding: int) -> int {
    rect_w - 2 * padding
}

fn half_toward_zero(a: i128) -> (r: i128)
    requires
        a > i128::MIN,
    ensures
        r == trunc_div(a as int, 2),
{
    if a >= 0 {
        a / 2
    } else {
        -((-a) / 2)
    }
}

proof fn lemma_heights_bound(g: Seq<Glyph>, lines: Seq<Seq<char>>, i: int)
    requires
        0 <= i <= lines.len(),
    ensures
        0 <= heights_before(g, lines, i) <= i * GLYPH_MAX,
    decreases i,
{
    if i > 0 {
        lemma_heights_bound(g, lines, i - 1);
        lemma_text_width_bound(g, lines[i - 1]);
    }
}

/// Lays `text` out in a `rect_width` by `rect_height` region: wraps it to
/// the width left inside `padding` on each side, centres each line
/// horizontally and the block vertically, and stacks the lines top to
/// bottom, each advancing by its own height.
pub fn layout_text(
    text: &Vec<char>,
    rect_width: u32,
    rect_height: u32,
    padding: u16,
    glyphs: &Vec<Glyph>,
) -> (plan: Vec<PlacedLine>)
    ensures
        ({
            let lines = wrapped_lines(
                glyphs@,
                text@,
                available_width(rect_width as int, padding as int),
            );
            &&& plan@.len() == lines.len()
            &&& forall|i: int|
                0 <= i < lines.len() ==> {
                    &&& (#[trigger] plan@[i]).text@ == lines[i]
                    &&& plan@[i].x == line_x(glyphs@, lines[i], rect_width as int)
                    &&& plan@[i].y == line_y(glyphs@, lines, rect_height as int, i)
                }
        }),
{
    let avail = rect_width as i128 - 2 * (padding as i128);
    let lines = wrap_text(glyphs, text, avail);
    let ghost lv = views(lines@);
    let n = lines.len();
    let mut plan: Vec<PlacedLine> = Vec::new();
    if n == 0 {
        return plan;
    }
    let h0 = measure_height(glyphs, &lines[0]);
    assert(lv[0] == lines@[0]@);
    assert((n as int) * (h0 as int) <= 0x1_0000_0000_0000_0000 * 0x1_0000_0000) by (nonlinear_arith)
        requires
            0 <= n <= usize::MAX,
            0 <= h0 <= u32::MAX,
    ;
    assert(0 <= (n as int) * (h0 as int)) by (nonlinear_arith)
        requires
            0 <= n,
            0 <= h0,
    ;
    let block = (n as i128) * (h0 as i128);
    let top = half_toward_zero(rect_height as i128 - block);
    let mut y = top;
    let mut i: usize = 0;
    while i < n
        invariant
            n == lines@.len(),
            lv == views(lines@),
            lv == wrapped_lines(glyphs@, text@, avail as int),
            avail == available_width(rect_width as int, padding as int),
            top == block_top(glyphs@, lv, rect_height as int),
            i <= n,
            y == top + heights_before(glyphs@, lv, i as int),
            -0x1_0000_0000_0000_0000_0000_0000 <= top <= 0x1_0000_0000,
            plan@.len() == i,
            forall|k: int|
                0 <= k < i ==> {
                    &&& (#[trigger] plan@[k]).text@ == lv[k]
                    &&& plan@[k].x == line_x(glyphs@, lv[k], rect_width as int)
                    &&& plan@[k].y == line_y(glyphs@, lv, rect_height as int, k)
                },
        decreases n - i,
    {
        proof {
            lemma_heights_bound(glyphs@, lv, i as int);
            lemma_heights_bound(glyphs@, lv, i + 1);
            assert((i + 1) * GLYPH_MAX <= 0x1_0000_0000_0000_0000 * GLYPH_MAX) by (nonlinear_arith)
                requires
                    0 <= i + 1 <= 0x1_0000_0000_0000_0000,
            ;
        }
        let line = &lines[i];
        assert(lv[i as int] == line@);
        let ll = line.len();
        let w = measure_width(glyphs, line);
        proof {
            lemma_width_in_range(ll as int, w as int);
        }
        let x = half_toward_zero(rect_width as i128 - w as i128);
        let h = measure_height(glyphs, line);
        plan.push(PlacedLine { text: copy_chars(line), x, y });
        y = y + h as i128;
        i = i + 1;
    }
    plan
}

proof fn lemma_keep_chars_fits(g: Seq<Glyph>, line: Seq<char>, k: int, avail: int)
    requires
        k <= line.len(),
    ensures
        0 <= keep_chars(g, line, k, avail) <= if k < 0 {
            0
        } else {
            k
        },
        keep_chars(g, line, k, avail) == 0 || text_width(
            g,
            line.subrange(0, keep_chars(g, line, k, avail)),
        ) + glyph_width(g, '-') <= avail,
    decreases k,
{
    if k > 0 {
        lemma_keep_chars_fits(g, line, k - 1, avail);
    }
}

proof fn lemma_keep_words_fits(g: Seq<Glyph>, ws: Seq<Seq<char>>, k: int, avail: int)
    requires
        k <= ws.len(),
    ensures
        0 <= keep_words(g, ws, k, avail) <= if k < 0 {
            0
        } else {
            k
        },
        keep_words(g, ws, k, avail) == 0 || text_width(
            g,
            join_words(ws.subrange(0, keep_words(g, ws, k, avail))),
        ) <= avail,
    decreases k,
{
    if k > 0 {
        lemma_keep_words_fits(g, ws, k - 1, avail);
    }
}

/// Where a hyphen fits in the available width, the first line that the
/// second pass makes of any line fits too; only a continuation line, holding
/// what was cut off, can be wider.
pub proof fn lemma_head_line_fits(g: Seq<Glyph>, line: Seq<char>, avail: int)
    requires
        glyph_width(g, '-') <= avail,
    ensures
        split_line(g, line, avail).len() > 0 ==> text_width(g, split_line(g, line, avail)[0])
            <= avail,
{
    lemma_glyph_bounds(g, '-');
    if text_width(g, line) > avail {
        if split_spaces(line).len() == 1 {
            let k = keep_chars(g, line, line.len() as int, avail);
            lemma_keep_chars_fits(g, line, line.len() as int, avail);
            let head = line.subrange(0, k).push('-');
            assert(head.drop_last() =~= line.subrange(0, k));
            if k == 0 {
                assert(line.subrange(0, 0) =~= Seq::<char>::empty());
            }
            assert(text_width(g, head) == text_width(g, line.subrange(0, k)) + glyph_width(g, '-'));
        } else {
            let ws = split_spaces(line);
            let k = keep_words(g, ws, ws.len() as int, avail);
            lemma_keep_words_fits(g, ws, ws.len() as int, avail);
            if k == 0 {
                assert(ws.subrange(0, 0) =~= Seq::<Seq<char>>::empty());
            }
        }
    }
}

/// Every wrapped line is made by the second pass from a first-pass line:
/// the output is the lines that each first-pass line becomes, in order.
pub proof fn lemma_wrapped_lines_from_pass1(
    g: Seq<Glyph>,
    lines: Seq<Seq<char>>,
    avail: int,
    i: int,
)
    requires
        0 <= i < pass2(g, lines, avail).len(),
    ensures
        exists|k: int, j: int|
            0 <= k < lines.len() && 0 <= j < split_line(g, lines[k], avail).len() && #[trigger] pass2(
                g,
                lines,
                avail,
            )[i] == split_line(g, lines[k], avail)[j],
    decreases lines.len(),
{
    let pre = pass2(g, lines.drop_last(), avail);
    let last = split_line(g, lines.last(), avail);
    assert(pass2(g, lines, avail) == pre + last);
    if i < pre.len() {
        lemma_wrapped_lines_from_pass1(g, lines.drop_last(), avail, i);
        let (k, j) = choose|k: int, j: int|
            0 <= k < lines.drop_last().len() && 0 <= j < split_line(
                g,
                lines.drop_last()[k],
                avail,
            ).len() && pre[i] == split_line(g, lines.drop_last()[k], avail)[j];
        assert(lines.drop_last()[k] == lines[k]);
        assert(pass2(g, lines, avail)[i] == split_line(g, lines[k], avail)[j]);
    } else {
        let k = lines.len() - 1;
        let j = i - pre.len();
        assert(pass2(g, lines, avail)[i] == split_line(g, lines[k], avail)[j]);
    }
}

/// `s` holds a space.
pub open spec fn has_space(s: Seq<char>) -> bool {
    exists|i: int| 0 <= i < s.len() && s[i] == ' '
}

proof fn lemma_width_concat(g: Seq<Glyph>, a: Seq<char>, b: Seq<char>)
    ensures
        text_width(g, a + b) == text_width(g, a) + text_width(g, b),
    decreases b.len(),
{
    if b.len() == 0 {
        assert(a + b =~= a);
    } else {
        lemma_width_concat(g, a, b.drop_last());
        assert((a + b).drop_last() =~= a + b.drop_last());
        assert((a + b).last() == b.last());
    }
}

proof fn lemma_split_words_have_no_space(s: Seq<char>)
    ensures
        forall|k: int|
            0 <= k < split_spaces(s).len() ==> !has_space(#[trigger] split_spaces(s)[k]),
    decreases s.len(),
{
    if s.len() > 0 {
        let pre = s.drop_last();
        lemma_split_words_have_no_space(pre);
        lemma_split_nonempty(pre);
        let w = split_spaces(pre);
        let c = s.last();
        if c != ' ' {
            let u = w.update(w.len() - 1, w.last().push(c));
            assert forall|k: int| 0 <= k < u.len() implies !has_space(#[trigger] u[k]) by {
                if k == u.len() - 1 {
                    let x = w.last().push(c);
                    assert(!has_space(w[w.len() - 1]));
                    assert forall|i: int| 0 <= i < x.len() implies x[i] != ' ' by {
                        if i < x.len() - 1 {
                            assert(x[i] == w[w.len() - 1][i]);
                        }
                    }
                } else {
                    assert(u[k] == w[k]);
                }
            }
        } else {
            let u = w.push(Seq::<char>::empty());
            assert forall|k: int| 0 <= k < u.len() implies !has_space(#[trigger] u[k]) by {
                if k < w.len() {
                    assert(u[k] == w[k]);
                }
            }
        }
    }
}

proof fn lemma_no_space_one_word(s: Seq<char>)
    requires
        !has_space(s),
    ensures
        split_spaces(s).len() == 1,
    decreases s.len(),
{
    if s.len() > 0 {
        let pre = s.drop_last();
        assert(!has_space(pre)) by {
            assert forall|i: int| 0 <= i < pre.len() implies pre[i] != ' ' by {
                assert(pre[i] == s[i]);
            }
        }
        lemma_no_space_one_word(pre);
        assert(s[s.len() - 1] != ' ');
    }
}

/// Each first-pass line fits, or is a single word without spaces; the line
/// being filled fits or is such a word, and its recorded width is its width.
proof fn lemma_pass1_lines(g: Seq<Glyph>, words: Seq<Seq<char>>, avail: int)
    requires
        forall|k: int| 0 <= k < words.len() ==> !has_space(#[trigger] words[k]),
    ensures
        ({
            let (lines, cur, cw) = pass1_state(g, words, avail);
            &&& cw == text_width(g, cur)
            &&& (cw <= avail || !has_space(cur))
            &&& forall|k: int|
                0 <= k < lines.len() ==> text_width(g, #[trigger] lines[k]) <= avail || !has_space(
                    lines[k],
                )
        }),
    decreases words.len(),
{
    if words.len() > 0 {
        let pre = words.drop_last();
        assert forall|k: int| 0 <= k < pre.len() implies !has_space(#[trigger] pre[k]) by {
            assert(pre[k] == words[k]);
        }
        lemma_pass1_lines(g, pre, avail);
        let (lines, cur, cw) = pass1_state(g, pre, avail);
        let word = words.last();
        assert(!has_space(word));
        let ww = text_width(g, word);
        let sp = glyph_width(g, ' ');
        if cw + ww + sp > avail {
            let nl = lines.push(cur);
            assert forall|k: int| 0 <= k < nl.len() implies text_width(g, #[trigger] nl[k])
                <= avail || !has_space(nl[k]) by {
                if k < lines.len() {
                    assert(nl[k] == lines[k]);
                }
            }
        } else if lines.len() == 0 && cur.len() == 0 {
        } else {
            lemma_width_concat(g, cur, seq![' ']);
            lemma_width_concat(g, cur + seq![' '], word);
            let sq = seq![' '];
            assert(sq.drop_last() =~= Seq::<char>::empty());
            assert(sq.last() == ' ');
            assert(text_width(g, Seq::<char>::empty()) == 0);
            assert(text_width(g, sq) == text_width(g, sq.drop_last()) + glyph_width(g, sq.last()));
            assert(text_width(g, sq) == sp);
            lemma_text_width_bound(g, word);
            lemma_glyph_bounds(g, ' ');
        }
    }
}

/// Where a hyphen fits in the available width, every wrapped line fits,
/// except the rest of a word without spaces that did not fit even after
/// hyphenation: the continuation of a first-pass line that is one such word.
pub proof fn lemma_wrapped_lines_fit(g: Seq<Glyph>, text: Seq<char>, avail: int, i: int)
    requires
        glyph_width(g, '-') <= avail,
        0 <= i < wrapped_lines(g, text, avail).len(),
    ensures
        ({
            let first = pass1(g, split_spaces(text), avail);
            let line = wrapped_lines(g, text, avail)[i];
            text_width(g, line) <= avail || exists|k: int|
                0 <= k < first.len() && !has_space(first[k]) && #[trigger] split_line(
                    g,
                    first[k],
                    avail,
                ).len() == 2 && line == split_line(g, first[k], avail)[1]
                    && split_line(g, first[k], avail)[0] == first[k].subrange(
                    0,
                    keep_chars(g, first[k], first[k].len() as int, avail),
                ).push('-')
        }),
{
    let words = split_spaces(text);
    lemma_split_words_have_no_space(text);
    lemma_pass1_lines(g, words, avail);
    let first = pass1(g, words, avail);
    let (lines, cur, cw) = pass1_state(g, words, avail);
    assert(first == lines.push(cur));
    lemma_wrapped_lines_from_pass1(g, first, avail, i);
    let (k, j) = choose|k: int, j: int|
        0 <= k < first.len() && 0 <= j < split_line(g, first[k], avail).len() && #[trigger] pass2(
            g,
            first,
            avail,
        )[i] == split_line(g, first[k], avail)[j];
    lemma_head_line_fits(g, first[k], avail);
    assert(split_line(g, first[k], avail).len() <= 2);
    if j == 1 {
        if k < lines.len() {
            assert(first[k] == lines[k]);
        }
        assert(text_width(g, first[k]) > avail);
        assert(!has_space(first[k]));
        lemma_no_space_one_word(first[k]);
    }
}

} // verus!
