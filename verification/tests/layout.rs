use spellcards::font::{Font, FontKind};
use spellcards::geom::{Point, Rect};
use spellcards::rich_text::{AlignStrategy, LayoutError, SceneBuilder};

/// A font whose advances equal the wanted widths at the given size: the
/// units-per-em divisor equals the size, so a character is exactly as wide
/// as its table entry.
fn unit_font(size: i64, advances: Vec<(char, i64)>) -> Font {
    Font::new(FontKind::Text, size, advances)
}

fn chars_of(word: &str, per_char: i64) -> Vec<(char, i64)> {
    word.chars().map(|c| (c, per_char)).collect()
}

#[test]
fn justify_even_three_blocks_fills_box() {
    // Box width 180: "Fireball" (80), a glyph (20) and "3" (10) justified
    // evenly leave two gaps of 35: elements at 0, 115 and 170.
    let size = 10;
    let mut advances = chars_of("Fireball", 10);
    advances.push(('+', 20));
    advances.push(('3', 10));
    let font = unit_font(size, advances);
    let mut b = SceneBuilder::new(&font, Rect::new(0, 0, 180, 1000));
    b.set_alignment(AlignStrategy::JustifyEven);
    b.set_font_size(size);
    b.add_text("Fireball").unwrap();
    b.add_text("+").unwrap();
    b.add_text("3").unwrap();
    b.finish_line();
    let scene = b.scene();
    assert_eq!(scene.parts.len(), 3);
    assert_eq!(scene.parts[0].rect, Rect::new(0, 0, 80, 10));
    assert_eq!(scene.parts[1].rect, Rect::new(115, 0, 20, 10));
    assert_eq!(scene.parts[2].rect, Rect::new(170, 0, 10, 10));
    // the line ends exactly at the right edge
    assert_eq!(scene.parts[2].rect.x + scene.parts[2].rect.w, 180);
}

#[test]
fn justify_even_two_blocks_left_packed() {
    // One or two blocks are left as left-packed: no redistribution.
    let size = 10;
    let mut advances = chars_of("ab", 10);
    advances.push((' ', 0));
    let font = unit_font(size, advances);
    let mut b = SceneBuilder::new(&font, Rect::new(0, 0, 200, 1000));
    b.set_alignment(AlignStrategy::JustifyEven);
    b.set_font_size(size);
    b.set_chunk_space(5);
    b.add_text("a").unwrap();
    b.add_text("b").unwrap();
    b.finish_line();
    let scene = b.scene();
    assert_eq!(scene.parts.len(), 2);
    assert_eq!(scene.parts[0].rect.x, 0);
    assert_eq!(scene.parts[1].rect.x, 15);
}

#[test]
fn right_alignment_packs_from_right_edge() {
    let size = 10;
    let mut advances = chars_of("a", 10);
    advances.push(('b', 20));
    let font = unit_font(size, advances);
    let mut b = SceneBuilder::new(&font, Rect::new(0, 0, 100, 1000));
    b.set_alignment(AlignStrategy::AlignRight);
    b.set_font_size(size);
    b.set_chunk_space(5);
    b.add_text("a").unwrap();
    b.add_text("b").unwrap();
    b.finish_line();
    let scene = b.scene();
    assert_eq!(scene.parts[1].rect.x, 80);
    assert_eq!(scene.parts[0].rect.x, 65);
}

#[test]
fn blocks_share_the_bottom_baseline() {
    // Two runs of different sizes on one line: both end on one baseline.
    let font = unit_font(10, chars_of("ab", 10));
    let tall = Font::new(FontKind::Bold, 20, chars_of("cd", 10));
    let mut b = SceneBuilder::new(&font, Rect::new(0, 0, 500, 1000));
    b.set_font_size(10);
    b.add_text("ab").unwrap();
    b.set_font(&tall);
    b.set_font_size(20);
    b.add_text("cd").unwrap();
    b.finish_line();
    let scene = b.scene();
    assert_eq!(scene.parts.len(), 2);
    let first = &scene.parts[0].rect;
    let second = &scene.parts[1].rect;
    assert_eq!(first.y + first.h, 20);
    assert_eq!(second.y + second.h, 20);
}

#[test]
fn word_no_wider_than_box_fits_empty_line() {
    let font = unit_font(10, chars_of("abcde", 10));
    let mut b = SceneBuilder::new(&font, Rect::new(0, 0, 50, 1000));
    b.set_font_size(10);
    // measured width 50 on a box of width 50: fits exactly
    b.add_text("abcde").unwrap();
    b.finish_line();
    let scene = b.scene();
    assert_eq!(scene.parts.len(), 1);
    assert_eq!(scene.parts[0].text, "abcde");
    assert_eq!(scene.parts[0].rect.w, 50);
}

#[test]
fn word_wider_than_box_is_unfit_token() {
    let font = unit_font(10, chars_of("abcdef", 10));
    let mut b = SceneBuilder::new(&font, Rect::new(0, 0, 50, 1000));
    b.set_font_size(10);
    let err = b.add_text("abcdef").unwrap_err();
    match err {
        LayoutError::UnfitToken { text, max_width } => {
            assert_eq!(text, "abcdef");
            assert_eq!(max_width, 50);
        }
        _ => panic!("expected an unfit token"),
    }
}

#[test]
fn wrapping_breaks_between_words() {
    // "aa bb cc" on a narrow box: greedy wrap, two chunks on the first
    // line, one on the second.
    let mut advances = chars_of("abc", 10);
    advances.push((' ', 10));
    let font = unit_font(10, advances);
    let mut b = SceneBuilder::new(&font, Rect::new(0, 0, 54, 1000));
    b.set_font_size(10);
    b.set_chunk_space(0);
    b.add_text("aa bb cc").unwrap();
    b.finish_line();
    let scene = b.scene();
    // "aa bb" measures 50 (space included), "aa bb cc" measures 80: the
    // first chunk is "aa bb", then "cc" wraps.
    assert_eq!(scene.parts.len(), 2);
    assert_eq!(scene.parts[0].text, "aa bb");
    assert_eq!(scene.parts[1].text, "cc");
    assert_eq!(scene.parts[1].rect.y, 10);
}

#[test]
fn chip_row_breaks_line_when_chip_does_not_fit() {
    // "Fire" (30 wide) in a chip with padding 4 takes 38 of a 90-wide box;
    // "Evocation" (55 wide, padding 4) would end at 101: it breaks the line
    // and starts the next one at the left edge.
    let mut advances = vec![
        ('F', 10),
        ('i', 5),
        ('r', 10),
        ('e', 5),
        ('E', 7),
        ('v', 6),
        ('o', 6),
        ('c', 6),
        ('a', 6),
        ('t', 6),
        ('n', 7),
    ];
    advances.push((' ', 0));
    let font = unit_font(10, advances);
    let mut b = SceneBuilder::new(&font, Rect::new(0, 0, 90, 1000));
    b.set_font_size(10);
    b.set_chunk_space(0);
    b.add_boxed_text("Fire", 4).unwrap();
    b.add_boxed_text("Evocation", 4).unwrap();
    b.finish_line();
    let scene = b.scene();
    assert_eq!(scene.parts.len(), 2);
    // first chip on the first line, text inset by the padding
    assert_eq!(scene.parts[0].rect.x, 4);
    assert_eq!(scene.parts[0].rect.y, 4);
    // second chip starts the next line at the left edge
    assert_eq!(scene.parts[1].rect.x, 4);
    assert_eq!(scene.parts[1].rect.y, 22);
    // both chips contribute a border polygon
    assert_eq!(scene.polygons.len(), 2);
}

#[test]
fn chip_wider_than_box_is_unfit_token() {
    let font = unit_font(10, chars_of("abcdefgh", 10));
    let mut b = SceneBuilder::new(&font, Rect::new(0, 0, 50, 1000));
    b.set_font_size(10);
    let err = b.add_boxed_text("abcdefgh", 4).unwrap_err();
    assert!(matches!(err, LayoutError::UnfitToken { .. }));
}

#[test]
fn separator_draws_one_open_line_across_the_box() {
    let font = unit_font(10, chars_of("a", 10));
    let mut b = SceneBuilder::new(&font, Rect::new(0, 0, 100, 1000));
    b.set_line_space(3);
    b.add_separator_line();
    let scene = b.scene();
    assert_eq!(scene.polygons.len(), 1);
    // the gap before the line is two line spaces
    assert_eq!(
        scene.polygons[0].points,
        vec![Point { x: 0, y: 6 }, Point { x: 100, y: 6 }]
    );
}

#[test]
fn out_of_bounds_and_doubling() {
    let font = unit_font(10, chars_of("a", 10));
    let mut b = SceneBuilder::new(&font, Rect::new(0, 0, 100, 25));
    b.set_font_size(10);
    b.add_text("a").unwrap();
    b.finish_line();
    b.add_text("a").unwrap();
    b.finish_line();
    b.add_text("a").unwrap();
    b.finish_line();
    // three lines of height 10 exceed a box of height 25
    assert!(b.is_out_of_bounds());
    b.double_box();
    assert_eq!(b.get_bounding_box().h, 50);
    assert!(!b.is_out_of_bounds());
}

#[test]
fn char_width_scales_by_size_over_units_per_em() {
    let font = Font::new(FontKind::Text, 1000, vec![('a', 500)]);
    assert_eq!(font.char_width_at(11_000, 'a'), 5_500);
    // a missing glyph measures zero: the silent-degrade policy
    assert_eq!(font.char_width_at(11_000, 'z'), 0);
}

#[test]
fn next_word_skips_spaces_then_runs_to_whitespace() {
    assert_eq!(spellcards::rich_text::next_word("  ab cd", 0), 4);
    assert_eq!(spellcards::rich_text::next_word("ab cd", 2), 5);
    assert_eq!(spellcards::rich_text::next_word("ab", 0), 2);
}

#[test]
fn add_rect_insets_outline_by_the_line_thickness() {
    // one typographic point: a thousand layout units
    let font = unit_font(10, vec![(' ', 0)]);
    let mut b = SceneBuilder::new(&font, Rect::new(0, 0, 100_000, 100_000));
    b.add_rect(Rect::new(10_000, 10_000, 30_000, 20_000));
    let scene = b.scene();
    assert_eq!(scene.polygons.len(), 1);
    assert_eq!(
        scene.polygons[0].points,
        vec![
            Point { x: 11_000, y: 11_000 },
            Point { x: 39_000, y: 11_000 },
            Point { x: 39_000, y: 29_000 },
            Point { x: 11_000, y: 29_000 },
            Point { x: 11_000, y: 11_000 },
        ]
    );
}
