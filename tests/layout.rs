use mangatra::layout::{choose_scale, count_words, layout_text, split_words, wrap_text, Glyph, Scale};

fn chars(s: &str) -> Vec<char> {
    s.chars().collect()
}

fn text(v: &[char]) -> String {
    v.iter().collect()
}

/// Every character is `w` wide and `h` high.
fn mono(alphabet: &str, w: u32, h: u32) -> Vec<Glyph> {
    alphabet.chars().map(|ch| Glyph { ch, width: w, height: h }).collect()
}

const ALPHABET: &str = "abcdefghijklmnopqrstuvwxyzABCDEFGHIJKLMNOPQRSTUVWXYZ -";

#[test]
fn scenario_b_two_words_use_the_largest_scale() {
    let s = choose_scale(200, count_words(&chars("Hi there")));
    assert_eq!(s, Scale { x_div: 7, y_div: 9 });
    let height = 100.0f32;
    assert!((height / s.x_div as f32 - 14.3).abs() < 0.05);
    assert!((height / s.y_div as f32 - 11.1).abs() < 0.05);
}

#[test]
fn width_rule_then_word_count_rule() {
    assert_eq!(choose_scale(50, 5), Scale { x_div: 8, y_div: 12 });
    assert_eq!(choose_scale(80, 5), Scale { x_div: 10, y_div: 14 });
    assert_eq!(choose_scale(100, 5), Scale { x_div: 9, y_div: 12 });
    assert_eq!(choose_scale(50, 10), Scale { x_div: 8, y_div: 10 });
    assert_eq!(choose_scale(80, 12), Scale { x_div: 10, y_div: 12 });
    assert_eq!(choose_scale(200, 14), Scale { x_div: 12, y_div: 14 });
    assert_eq!(choose_scale(200, 16), Scale { x_div: 14, y_div: 16 });
    assert_eq!(choose_scale(50, 1), Scale { x_div: 7, y_div: 9 });
}

#[test]
fn words_are_split_on_single_spaces() {
    let w: Vec<String> = split_words(&chars("a  bc d")).iter().map(|v| text(v)).collect();
    assert_eq!(w, vec!["a", "", "bc", "d"]);
    assert_eq!(count_words(&chars("")), 1);
    assert_eq!(count_words(&chars("Hi there")), 2);
}

#[test]
fn scenario_c_long_token_is_hyphenated_into_two_lines() {
    let g = mono(ALPHABET, 10, 12);
    let token = "abcdefghijABCDEFGHIJabcdefghijABCDEFGHIJ";
    assert_eq!(token.len(), 40);
    let plan = layout_text(&chars(token), 300, 100, 10, &g);
    let lines: Vec<String> = plan.iter().map(|l| text(&l.text)).collect();
    assert_eq!(lines.len(), 2);
    assert_eq!(lines[0], format!("{}-", &token[..27]));
    assert_eq!(lines[1], &token[27..]);
    assert!(lines[0].len() * 10 <= 280);
}

#[test]
fn greedy_wrapping_fills_lines() {
    let g = mono(ALPHABET, 10, 12);
    // 100 pixels available: "aaa bbb cc" is exactly 100 wide; "dddd" starts a new line.
    let lines: Vec<String> =
        wrap_text(&g, &chars("aaa bbb cc dddd"), 100).iter().map(|l| text(l)).collect();
    assert_eq!(lines, vec!["aaa bbb cc", "dddd"]);
}

#[test]
fn overlong_word_is_hyphenated_among_others() {
    let g = mono(ALPHABET, 10, 12);
    let lines: Vec<String> =
        wrap_text(&g, &chars("abcdefghijkl xy"), 100).iter().map(|l| text(l)).collect();
    assert_eq!(lines, vec!["abcdefghi-", "jkl", "xy"]);
}

#[test]
fn lines_other_than_continuations_fit() {
    let g = mono(ALPHABET, 10, 12);
    let lines = wrap_text(&g, &chars("one two three four five six seven eight"), 120);
    for l in &lines {
        assert!(l.len() * 10 <= 120, "{}", text(l));
    }
}

#[test]
fn lines_are_centred() {
    let g = mono(ALPHABET, 10, 12);
    let plan = layout_text(&chars("ab cdef"), 100, 60, 20, &g);
    // 60 pixels available: "ab" (20) plus a space and "cdef" (40) would need 70.
    let lines: Vec<String> = plan.iter().map(|l| text(&l.text)).collect();
    assert_eq!(lines, vec!["ab", "cdef"]);
    assert_eq!((plan[0].x, plan[0].y), (40, 18));
    assert_eq!((plan[1].x, plan[1].y), (30, 30));
}

#[test]
fn empty_text_has_no_lines() {
    let g = mono(ALPHABET, 10, 12);
    assert!(layout_text(&chars(""), 100, 60, 10, &g).is_empty());
}

#[test]
fn block_taller_than_region_starts_above_it() {
    let g = mono(ALPHABET, 10, 40);
    let plan = layout_text(&chars("aaaa bbbb cccc"), 60, 50, 0, &g);
    assert_eq!(plan.len(), 3);
    // (50 - 3 * 40) / 2 rounds toward zero.
    assert_eq!(plan[0].y, -35);
    assert_eq!(plan[2].y, 45);
}
