use snowflake::display::{Color, Display};

const BLACK: Color = Color(0);
const WHITE: Color = Color(0xFFFF_FFFF);

fn screen(w: u32, h: u32) -> Display {
    Display::new(vec![BLACK; (w * h) as usize], w, h, Vec::new())
}

fn lit(d: &Display) -> Vec<(u32, u32)> {
    let w = d.width();
    let mut v = Vec::new();
    for (i, c) in d.frame().iter().enumerate() {
        if *c != BLACK {
            v.push((i as u32 % w, i as u32 / w));
        }
    }
    v.sort();
    v
}

#[test]
fn new_sets_size_and_scale() {
    let d = screen(4, 3);
    assert_eq!(d.width(), 4);
    assert_eq!(d.height(), 3);
    assert_eq!(d.scale(), 1);
    let tall = Display::new(vec![BLACK; 1441], 1, 1441, Vec::new());
    assert_eq!(tall.scale(), 2);
    let edge = Display::new(vec![BLACK; 1440], 1, 1440, Vec::new());
    assert_eq!(edge.scale(), 1);
}

#[test]
fn rgb_is_opaque() {
    assert_eq!(Color::rgb(0x12, 0x34, 0x56), Color(0xFF12_3456));
    assert_eq!(Color::rgb(0, 0, 0), Color(0xFF00_0000));
}

#[test]
fn pixel_sets_one_index() {
    let mut d = screen(4, 3);
    d.pixel(2, 1, WHITE);
    assert_eq!(lit(&d), vec![(2, 1)]);
    assert_eq!(d.frame()[6], WHITE);
    // x past the row end wraps into the next row, as the frame index does
    d.pixel(5, 0, WHITE);
    assert_eq!(d.frame()[5], WHITE);
}

#[test]
fn rect_fills_inside() {
    let mut d = screen(4, 3);
    d.rect(1, 1, 2, 1, WHITE);
    assert_eq!(lit(&d), vec![(1, 1), (2, 1)]);
}

#[test]
fn rect_is_clipped_to_screen() {
    let mut d = screen(4, 3);
    d.rect(-5, -5, 100, 100, WHITE);
    assert_eq!(lit(&d).len(), 12);
    let mut e = screen(4, 3);
    e.rect(3, 2, 10, 10, WHITE);
    assert_eq!(lit(&e), vec![(3, 2)]);
}

#[test]
fn rect_with_zero_alpha_draws_nothing() {
    let mut d = screen(4, 3);
    d.rect(0, 0, 4, 3, Color(0x00FF_FFFF));
    assert_eq!(lit(&d), vec![]);
    // a translucent color is written as it is
    d.rect(0, 0, 1, 1, Color(0x80FF_FFFF));
    assert_eq!(d.frame()[0], Color(0x80FF_FFFF));
}

#[test]
fn rect_on_screen_is_drawn_whole() {
    let mut d = screen(5, 5);
    d.rect(1, 2, 3, 2, WHITE);
    assert_eq!(lit(&d), vec![(1, 2), (1, 3), (2, 2), (2, 3), (3, 2), (3, 3)]);
}

#[test]
fn scroll_moves_rows_up() {
    let mut d = Display::new((0..6).map(|i| Color(i + 1)).collect(), 2, 3, Vec::new());
    d.scroll(1, Color(9));
    let f: Vec<u32> = d.frame().iter().map(|c| c.0).collect();
    assert_eq!(f, vec![3, 4, 5, 6, 9, 9]);
}

#[test]
fn scroll_by_height_or_zero_does_nothing() {
    let mut d = Display::new((0..6).map(|i| Color(i + 1)).collect(), 2, 3, Vec::new());
    d.scroll(3, Color(9));
    d.scroll(0, Color(9));
    let f: Vec<u32> = d.frame().iter().map(|c| c.0).collect();
    assert_eq!(f, vec![1, 2, 3, 4, 5, 6]);
}

#[test]
fn scroll_twice_is_scroll_by_sum() {
    let mut a = Display::new((0..10).map(|i| Color(i + 1)).collect(), 2, 5, Vec::new());
    let mut b = Display::new((0..10).map(|i| Color(i + 1)).collect(), 2, 5, Vec::new());
    a.scroll(1, Color(7));
    a.scroll(2, Color(7));
    b.scroll(3, Color(7));
    assert_eq!(a.frame(), b.frame());
}

#[test]
fn scroll_uses_scale() {
    let mut d = Display::new((0..1441 * 2).map(|i| Color(i + 1)).collect(), 1, 2882, Vec::new());
    assert_eq!(d.scale(), 2);
    d.scroll(1, Color(0));
    assert_eq!(d.frame()[0], Color(3));
}

#[test]
fn line_follows_bresenham() {
    let mut d = screen(6, 3);
    d.line(0, 0, 5, 2, WHITE);
    assert_eq!(lit(&d), vec![(0, 0), (1, 0), (2, 1), (3, 1), (4, 1), (5, 2)]);
}

#[test]
fn line_backwards_holds_endpoints() {
    let mut d = screen(5, 4);
    d.line(4, 3, 0, 0, WHITE);
    assert_eq!(lit(&d), vec![(0, 0), (1, 1), (2, 2), (3, 3), (4, 3)]);
}

#[test]
fn straight_lines_cover_every_pixel() {
    let mut d = screen(5, 5);
    d.line(4, 2, 0, 2, WHITE);
    assert_eq!(lit(&d), vec![(0, 2), (1, 2), (2, 2), (3, 2), (4, 2)]);
    let mut e = screen(5, 5);
    e.line(1, 0, 1, 4, WHITE);
    assert_eq!(lit(&e), vec![(1, 0), (1, 1), (1, 2), (1, 3), (1, 4)]);
}

#[test]
fn single_point_line() {
    let mut d = screen(3, 3);
    d.line(1, 1, 1, 1, WHITE);
    assert_eq!(lit(&d), vec![(1, 1)]);
}

#[test]
fn circle_outline() {
    let mut d = screen(9, 9);
    d.circle(4, 4, 3, false, WHITE);
    assert_eq!(
        lit(&d),
        vec![
            (1, 3), (1, 4), (1, 5), (2, 2), (2, 6), (3, 1), (3, 7), (4, 1),
            (4, 7), (5, 1), (5, 7), (6, 2), (6, 6), (7, 3), (7, 4), (7, 5)
        ]
    );
}

#[test]
fn circle_outline_is_symmetric() {
    let mut d = screen(11, 11);
    d.circle(5, 5, 4, false, WHITE);
    let pts = lit(&d);
    for &(x, y) in &pts {
        assert!(pts.contains(&(10 - x, y)));
        assert!(pts.contains(&(x, 10 - y)));
        assert!(pts.contains(&(y, x)));
    }
}

#[test]
fn circle_filled() {
    let mut d = screen(7, 7);
    d.circle(3, 3, 2, true, WHITE);
    assert_eq!(
        lit(&d),
        vec![
            (1, 2), (1, 3), (1, 4), (2, 1), (2, 2), (2, 3), (2, 4), (2, 5), (3, 1), (3, 2), (3, 3),
            (3, 4), (3, 5), (4, 1), (4, 2), (4, 3), (4, 4), (4, 5), (5, 2), (5, 3), (5, 4)
        ]
    );
}

#[test]
fn circle_negative_radius_fills() {
    let mut d = screen(3, 3);
    d.circle(1, 1, -1, false, WHITE);
    assert_eq!(lit(&d), vec![(0, 1), (1, 0), (1, 1), (1, 2), (2, 1)]);

    let mut e = screen(7, 7);
    e.circle(3, 3, -2, false, WHITE);
    assert_eq!(
        lit(&e),
        vec![
            (1, 3), (2, 2), (2, 3), (2, 4), (3, 1), (3, 2), (3, 3), (3, 4), (3, 5), (4, 2), (4, 3),
            (4, 4), (5, 3)
        ]
    );
    let mut f = screen(7, 7);
    f.circle(3, 3, -2, true, WHITE);
    assert_eq!(lit(&f), lit(&e));
    for t in 1..=5u32 {
        assert!(lit(&e).contains(&(t, 3)));
        assert!(lit(&e).contains(&(3, t)));
    }
}

fn font_with(c: char, rows: [u8; 16]) -> Vec<u8> {
    let mut font = vec![0u8; 256 * 16];
    let base = c as usize * 16;
    font[base..base + 16].copy_from_slice(&rows);
    font
}

#[test]
fn char_draws_glyph_bits() {
    let mut rows = [0u8; 16];
    rows[0] = 0b1000_0001;
    rows[15] = 0b0001_0000;
    let mut d = Display::new(vec![BLACK; 10 * 20], 10, 20, font_with('A', rows));
    d.char(1, 2, 'A', WHITE);
    assert_eq!(lit(&d), vec![(1, 2), (4, 17), (8, 2)]);
}

#[test]
fn char_past_font_draws_nothing() {
    let mut d = Display::new(vec![BLACK; 10 * 20], 10, 20, vec![0xFF; 16]);
    d.char(0, 0, 'B', WHITE);
    assert_eq!(lit(&d), vec![]);
    d.char(0, 0, '\0', WHITE);
    assert_eq!(lit(&d).len(), 8 * 16);
}

#[test]
fn string_draws_cells_eight_apart() {
    let mut rows = [0u8; 16];
    rows[3] = 0b0100_0000;
    let mut d = Display::new(vec![BLACK; 24 * 16], 24, 16, font_with('x', rows));
    d.string(0, 0, "xxy", WHITE);
    assert_eq!(lit(&d), vec![(1, 3), (9, 3)]);
}

#[test]
fn public_drawing_matches_inner_drawing() {
    let mut a = screen(12, 10);
    let mut b = screen(12, 10);
    a.circle(5, 5, 3, false, WHITE);
    b.inner_circle(5, 5, 3, false, WHITE);
    assert_eq!(a.frame(), b.frame());
    a.circle(5, 5, -2, false, WHITE);
    b.inner_circle(5, 5, -2, false, WHITE);
    assert_eq!(a.frame(), b.frame());
    a.rect(-3, 8, 20, 5, WHITE);
    b.inner_rect(-3, 8, 20, 5, WHITE);
    assert_eq!(a.frame(), b.frame());
    a.line(0, 0, 11, 3, WHITE);
    b.inner_line(0, 0, 11, 3, WHITE);
    assert_eq!(a.frame(), b.frame());
}

#[test]
fn string_is_its_characters_in_turn() {
    let mut font = vec![0u8; 256 * 16];
    for (c, bits) in [('a', 0b1010_0000u8), ('b', 0b0000_0011u8)] {
        for r in 0..16 {
            font[c as usize * 16 + r] = bits.rotate_left(r as u32);
        }
    }
    let mut s = Display::new(vec![BLACK; 30 * 20], 30, 20, font.clone());
    let mut c = Display::new(vec![BLACK; 30 * 20], 30, 20, font);
    s.string(2, 1, "aba", WHITE);
    c.char(2, 1, 'a', WHITE);
    c.char(10, 1, 'b', WHITE);
    c.char(18, 1, 'a', WHITE);
    assert_eq!(s.frame(), c.frame());
    let before = s.frame().clone();
    s.string(0, 0, "", WHITE);
    assert_eq!(s.frame(), &before);
}
