use grid::colors::{
    apply_color_sidecar, color_rgb, color_sidecar, color_spec, nearest_palette, opt_hex, palette_place,
    palette_rgb, parse_color, parse_color_spec, parse_rgb,
};
use grid::model::{Color, Sheet};

fn rgb(s: &str) -> Option<(u8, u8, u8)> {
    parse_rgb(&s.chars().collect::<Vec<char>>())
}

fn hex(c: Option<(u8, u8, u8)>) -> String {
    opt_hex(c).into_iter().collect()
}

fn color(s: &str) -> Option<u8> {
    parse_color(&s.chars().collect::<Vec<char>>())
}

#[test]
fn hexadecimal_colours() {
    assert_eq!(rgb("#ff8000"), Some((255, 128, 0)));
    assert_eq!(rgb("FF8000"), Some((255, 128, 0)));
    assert_eq!(rgb("##0a0B0c"), Some((10, 11, 12)));
    assert_eq!(rgb("#f80"), Some((255, 136, 0)));
    assert_eq!(rgb("+f+f+f"), Some((15, 15, 15)));
    assert_eq!(rgb("+++"), None);
    assert_eq!(rgb(""), None);
    assert_eq!(rgb("#"), None);
    assert_eq!(rgb("#12345"), None);
    assert_eq!(rgb("#gg0000"), None);
    assert_eq!(rgb("a\u{e9}123"), None);
    assert_eq!(hex(Some((255, 128, 0))), "#ff8000");
    assert_eq!(hex(None), "");
}

#[test]
fn every_colour_reads_back() {
    for n in 0..=255u8 {
        let c = Some((n, 255 - n, n / 2));
        assert_eq!(rgb(&hex(c)), c);
    }
    assert_eq!(rgb(&hex(None)), None);
}

#[test]
fn the_palette() {
    assert_eq!(palette_rgb(0), (0, 0, 0));
    assert_eq!(palette_rgb(1), (128, 0, 0));
    assert_eq!(palette_rgb(7), (192, 192, 192));
    assert_eq!(palette_rgb(8), (128, 128, 128));
    assert_eq!(palette_rgb(12), (0, 0, 255));
    assert_eq!(palette_rgb(15), (255, 255, 255));
    assert_eq!(palette_rgb(16), (0, 0, 0));
    assert_eq!(palette_rgb(208), (255, 135, 0));
    assert_eq!(palette_rgb(231), (255, 255, 255));
    assert_eq!(palette_rgb(232), (8, 8, 8));
    assert_eq!(palette_rgb(255), (238, 238, 238));
    assert_eq!(nearest_palette(None), None);
    assert_eq!(nearest_palette(Some((255, 0, 0))), Some(196));
    assert_eq!(nearest_palette(Some((3, 3, 3))), Some(16));
    assert_eq!(nearest_palette(Some((249, 249, 249))), Some(231));
    assert_eq!(nearest_palette(Some((128, 128, 128))), Some(243));
}

#[test]
fn cube_colours_are_found_again() {
    for n in 16..232u8 {
        let (r, g, b) = palette_rgb(n);
        if r != g || g != b {
            assert_eq!(nearest_palette(Some((r, g, b))), Some(n));
        }
    }
}

#[test]
fn palette_colours_keep_their_place() {
    assert_eq!(palette_place(None), None);
    for n in 0..=255u8 {
        let c = palette_rgb(n);
        assert_eq!(palette_place(Some(Color::Palette(n))), Some(n));
        assert_eq!(color_rgb(Some(Color::Palette(n))), Some(c));
        assert_eq!(color_rgb(Some(Color::Rgb(c))), Some(c));
        let place = palette_place(Some(Color::Rgb(c))).unwrap();
        assert_eq!(palette_rgb(place), c);
        let twice = n == 0 || (9..=15).contains(&n) || n == 244;
        assert_eq!(place == n, !twice, "{}", n);
    }
    assert_eq!(palette_place(Some(Color::Rgb((128, 128, 128)))), Some(8));
    assert_eq!(palette_place(Some(Color::Rgb((255, 0, 0)))), Some(196));
    assert_eq!(palette_place(Some(Color::Rgb((1, 2, 3)))), nearest_palette(Some((1, 2, 3))));
}

#[test]
fn colour_words() {
    assert_eq!(color("12"), Some(12));
    assert_eq!(color(" 255 "), Some(255));
    assert_eq!(color("256"), None);
    assert_eq!(color("Orange"), Some(208));
    assert_eq!(color("GRAY"), Some(8));
    assert_eq!(color("grey"), Some(8));
    assert_eq!(color("black"), Some(0));
    assert_eq!(color("red"), Some(1));
    assert_eq!(color("green"), Some(2));
    assert_eq!(color("yellow"), Some(3));
    assert_eq!(color("blue"), Some(4));
    assert_eq!(color("magenta"), Some(5));
    assert_eq!(color("cyan"), Some(6));
    assert_eq!(color("white"), Some(7));
    assert_eq!(color("puce"), None);
    assert_eq!(color(""), None);
}

#[test]
fn colour_specs() {
    assert_eq!(parse_color_spec("red,15"), (Some(1), Some(15)));
    assert_eq!(parse_color_spec(",blue"), (None, Some(4)));
    assert_eq!(parse_color_spec("7"), (Some(7), None));
    assert_eq!(parse_color_spec(""), (None, None));
    assert_eq!(parse_color_spec("1,2,3"), (Some(1), None));
    assert_eq!(color_spec(Some(11), None), "11,");
    assert_eq!(color_spec(None, Some(0)), ",0");
    for fg in [None, Some(0), Some(9), Some(255)] {
        for bg in [None, Some(3), Some(208)] {
            assert_eq!(parse_color_spec(&color_spec(fg, bg)), (fg, bg));
        }
    }
}

#[test]
fn the_sidecar_keeps_colours() {
    let mut s = Sheet::default();
    s.set(0, 0, "x".to_string());
    s.set_colors(0, 0, Some(Color::Rgb((1, 2, 3))), None);
    s.set_colors(2, 1, None, Some(Color::Rgb((255, 0, 16))));
    s.set(1, 1, "plain".to_string());
    let text = color_sidecar(&s);
    assert_eq!(text, "0,0,#010203,\n2,1,,#ff0010\n");
    let mut back = Sheet::default();
    back.set(0, 0, "x".to_string());
    apply_color_sidecar(&text, &mut back);
    for r in 0..4 {
        for c in 0..4 {
            assert_eq!(back.colors(r, c), s.colors(r, c));
        }
    }
    assert_eq!(back.raw(0, 0), "x");
    assert_eq!((back.nrows, back.ncols), (3, 2));
    assert_eq!(color_sidecar(&Sheet::default()), "");
}

#[test]
fn typed_colours_are_kept_as_rgb_in_the_sidecar() {
    let mut s = Sheet::default();
    s.set_colors(0, 0, Some(Color::Palette(15)), Some(Color::Palette(1)));
    let text = color_sidecar(&s);
    assert_eq!(text, "0,0,#ffffff,#800000\n");
    let mut back = Sheet::default();
    apply_color_sidecar(&text, &mut back);
    assert_eq!(
        back.colors(0, 0),
        (Some(Color::Rgb((255, 255, 255))), Some(Color::Rgb((128, 0, 0))))
    );
}

#[test]
fn other_sidecar_lines_are_passed_over() {
    let mut s = Sheet::default();
    apply_color_sidecar(
        "1,1,#fff\nx,1,#fff,\n1,-1,#fff,\n1,1,,\n1,1,nope,\n4294967295,0,#fff,\n\n1,2,#fff,,\n",
        &mut s,
    );
    assert_eq!(s.cells.len(), 0);
    assert_eq!((s.nrows, s.ncols), (0, 0));
}

#[test]
fn a_cell_without_text_and_colours_is_not_stored() {
    let mut s = Sheet::default();
    s.set_colors(0, 0, Some(Color::Rgb((1, 1, 1))), None);
    assert_eq!(s.cells.len(), 1);
    s.set_colors(0, 0, None, None);
    assert_eq!(s.cells.len(), 0);
}
