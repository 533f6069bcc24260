use std::path::PathBuf;

use grid::fit::{center, fill, fit_cell, put_in_middle};
use grid::help::{help_area, keys, make_panes, show_help, Area};
use grid::model::{Book, Color, Sheet, Value};
use grid::num::{Bits, Numerics, Op};
use grid::recalc::recalc;
use grid::render::{cell_look, Look};
use grid::view::App;

fn numerics() -> Numerics<
    impl Fn(&str) -> Option<Bits>,
    impl Fn(Bits) -> String,
    impl Fn(Op, Bits, Bits) -> Bits,
> {
    Numerics {
        parse: |s: &str| s.parse::<f64>().ok().map(f64::to_bits),
        fixed: |n: Bits| format!("{:.10}", f64::from_bits(n)),
        calc: |op: Op, x: Bits, y: Bits| {
            let (a, b) = (f64::from_bits(x), f64::from_bits(y));
            let r = match op {
                Op::Neg => -a,
                Op::Add => a + b,
                Op::Sub => a - b,
                Op::Mul => a * b,
                Op::Div => a / b,
                Op::Pow => a.powf(b),
                Op::PowTen => 10f64.powi(a as i32),
                Op::Nearest => a.round(),
                Op::Floor => a.floor(),
                Op::Abs => a.abs(),
                Op::Sqrt => a.sqrt(),
                Op::Min => a.min(b),
                Op::Max => a.max(b),
                Op::OfCount => x as f64,
                Op::Truncate => return a as u64,
            };
            r.to_bits()
        },
    }
}

const RESET: &str = "\u{1b}[0m";

fn app(w: u16, h: u16) -> App {
    let mut s = Sheet::named("one".to_string());
    s.set(0, 0, "7".to_string());
    s.set(0, 1, "text".to_string());
    s.set(1, 0, "a long text in a cell".to_string());
    s.set_colors(0, 1, Some(Color::Rgb((255, 0, 0))), None);
    s.set_colors(1, 1, None, Some(Color::Rgb((0, 0, 255))));
    s.set_colors(1, 2, Some(Color::Rgb((0, 0, 255))), None);
    recalc(&numerics(), &mut s);
    let book = Book { sheets: vec![s], active: 0, path: PathBuf::from("b.csv"), dirty: false };
    App::new(book, w, h)
}

#[test]
fn values_are_fitted() {
    let n = numerics();
    assert_eq!(fit_cell(&n, &Value::Number(5f64.to_bits()), 6), format!("    5{} ", RESET));
    assert_eq!(
        fit_cell(&n, &Value::Text("ab".to_string()), 6),
        format!("ab{}    ", RESET)
    );
    assert_eq!(
        fit_cell(&n, &Value::Text("abcdefgh".to_string()), 6),
        format!("abcd\u{2026}{} ", RESET)
    );
    assert_eq!(fit_cell(&n, &Value::Empty, 3), format!("{}   ", RESET));
    assert_eq!(fill("x", 1, 3, true), "  x ");
    assert_eq!(fill("xyz", 3, 2, false), "xyz ");
}

#[test]
fn fitted_cells_take_up_their_columns() {
    let n = numerics();
    let texts = ["", "x", "nine char", "ten charac", "a much longer text", "\u{65e5}\u{672c}\u{8a9e}",
        "\u{65e5}\u{672c}\u{8a9e}\u{65e5}\u{672c}\u{8a9e}\u{65e5}", "caf\u{e9}", "e\u{301}t\u{e9}"];
    for t in texts {
        for w in [1usize, 2, 3, 5, 10] {
            let cell = fit_cell(&n, &Value::Text(t.to_string()), w);
            assert_eq!(crust::display_width(&cell), w, "{:?} in {}", t, w);
            let middle = center(t, w);
            let taken = crust::display_width(t);
            assert!(crust::display_width(&middle) <= w);
            assert!(taken > w || crust::display_width(&middle) == w);
        }
    }
    let number = fit_cell(&n, &Value::Number(2.5f64.to_bits()), 10);
    assert_eq!(crust::display_width(&number), 10);
    assert_eq!(fit_cell(&n, &Value::Text("ab".to_string()), 2), format!("a{} ", RESET));
    assert_eq!(fit_cell(&n, &Value::Text("ab".to_string()), 0), format!("{} ", RESET));
}

#[test]
fn texts_are_centred() {
    assert_eq!(center("ab", 7), "  ab   ");
    assert_eq!(center("abc", 3), format!("abc{}", RESET));
    assert_eq!(center("abcd", 3), format!("ab\u{2026}{}", RESET));
    assert_eq!(put_in_middle("x", 1, 4), " x  ");
}

#[test]
fn cells_are_styled() {
    let style = |look: Look| match look {
        Look::Plain => "plain".to_string(),
        Look::Bar(s) => format!("bar {}", s),
        Look::Styled(s) => format!("styled {}", s),
    };
    let red = Some(Color::Rgb((255, 0, 0)));
    let blue = Some(Color::Rgb((0, 0, 255)));
    assert_eq!(style(cell_look(true, true, red, blue)), "bar 15");
    assert_eq!(style(cell_look(true, false, None, None)), "styled 0,15");
    assert_eq!(style(cell_look(false, true, red, blue)), "bar 21");
    assert_eq!(style(cell_look(false, true, red, None)), "plain");
    assert_eq!(style(cell_look(false, false, red, None)), "styled 196,");
    assert_eq!(style(cell_look(false, false, red, blue)), "styled 196,21");
    assert_eq!(style(cell_look(false, false, None, None)), "plain");
    let dark_red = Some(Color::Rgb((128, 0, 0)));
    let light_grey = Some(Color::Rgb((188, 188, 188)));
    let typed = Some(Color::Palette(15));
    assert_eq!(style(cell_look(false, false, typed, Some(Color::Palette(0)))), "styled 15,0");
    assert_eq!(style(cell_look(false, true, None, typed)), "bar 15");
    assert_eq!(style(cell_look(false, false, dark_red, light_grey)), "styled 1,250");
    assert_eq!(style(cell_look(false, true, None, dark_red)), "bar 1");
}

#[test]
fn the_screen_is_drawn() {
    let mut a = app(34, 6);
    assert!(a.showable());
    let f = a.render(&numerics(), "9.9");
    assert_eq!(f.top, format!("\u{1b}[1mA1{}  7", RESET));
    assert_eq!(
        f.foot,
        " hjkl/\u{2191}\u{2193} move  Enter edit  = formula  c AI  C colour  u undo  d clear  Tab sheet  s save  q quit   grid 9.9"
    );
    let lines: Vec<&str> = f.body.split('\n').collect();
    assert_eq!(lines.len(), 4);
    assert_eq!(
        lines[0],
        format!(
            "    \u{1b}[38;5;11;1m    A     {0}\u{1b}[1m    B     {0}\u{1b}[1m    C     {0}",
            RESET
        )
    );
    assert_eq!(
        lines[1],
        format!(
            "\u{1b}[38;5;11;1m  1 {0}\u{1b}[38;5;0;48;5;15m        7{0} {0}\u{1b}[38;5;196mtext{0}      {0}{0}          ",
            RESET
        )
    );
    assert_eq!(
        lines[2],
        format!(
            "  2 a long t\u{2026}{0} \u{1b}[38;5;21m{1}{0}{0}          ",
            RESET,
            "\u{2588}".repeat(10)
        )
    );
    assert_eq!(lines[3], format!("  3 {0}          {0}          {0}          ", RESET));
}

#[test]
fn the_top_bar_names_the_sheet() {
    let mut a = app(34, 6);
    a.book.sheets.push(Sheet::named("two".to_string()));
    a.book.dirty = true;
    a.status = "Saved".to_string();
    let f = a.render(&numerics(), "1");
    assert_eq!(f.top, format!("\u{1b}[1mA1{} [+]  [one 1/2]  7", RESET));
    assert_eq!(f.foot, " Saved");
}

#[test]
fn the_window_follows_the_cursor() {
    let mut a = app(34, 6);
    a.book.sheet_mut().set(99, 9, "end".to_string());
    assert_eq!(a.gutter(), 4);
    assert_eq!(a.vis_cols(), 3);
    assert_eq!(a.data_rows(), 3);
    a.cur_row = 50;
    a.cur_col = 5;
    a.clamp_scroll();
    assert_eq!((a.top_row, a.top_col), (48, 3));
    a.cur_row = 49;
    a.clamp_scroll();
    assert_eq!(a.top_row, 48);
    a.cur_row = 2;
    a.cur_col = 0;
    a.clamp_scroll();
    assert_eq!((a.top_row, a.top_col), (2, 0));
    a.book.sheet_mut().set(123456, 0, "x".to_string());
    assert_eq!(a.gutter(), 7);
    let tiny = app(3, 3);
    assert_eq!(tiny.vis_cols(), 1);
    assert_eq!(tiny.data_rows(), 0);
}

#[test]
fn rows_without_numbers_are_not_shown() {
    let mut a = app(34, 6);
    a.book.sheet_mut().set(u32::MAX - 1, 0, "x".to_string());
    a.cur_row = u32::MAX;
    assert!(!a.showable());
    a.cur_row = u32::MAX - 1;
    assert!(a.showable());
    a.top_row = u32::MAX - 1;
    assert!(!a.showable());
}

#[test]
fn panes_are_laid_out() {
    let (top, body, foot) = make_panes(80, 24);
    assert_eq!(top, Area { x: 1, y: 1, w: 80, h: 1, fg: 7, bg: 0 });
    assert_eq!(body, Area { x: 1, y: 2, w: 80, h: 22, fg: 7, bg: 0 });
    assert_eq!(foot, Area { x: 1, y: 24, w: 80, h: 1, fg: 0, bg: 6 });
    assert_eq!(make_panes(80, 1).1.h, 0);
}

#[test]
fn the_help_popup() {
    let all = keys("assistant");
    assert_eq!(all.len(), 16);
    assert_eq!(all[7].1, "AI edit \u{2014} change the sheet by instruction (assistant)");
    let width = 9 + 2 + all.iter().map(|(_, d)| d.chars().count()).max().unwrap() as u16;
    let area = help_area("assistant", 100, 50);
    assert_eq!((area.w, area.h), (width + 4, 21));
    assert_eq!((area.x, area.y), ((100 - width - 4) / 2 + 1, 15));
    let small = help_area("assistant", 20, 5);
    assert_eq!((small.x, small.y, small.w, small.h), (1, 1, 24, 6));
    let text = show_help("assistant");
    assert!(text.starts_with("\u{1b}[38;5;11;1m grid \u{2014} keys\u{1b}[0m\n\n \u{1b}[38;5;14;1m  h j k l\u{1b}[0m  move left"));
    assert!(text.contains("\n \u{1b}[38;5;14;1m        Q\u{1b}[0m  quit without saving\n"));
    assert!(text.ends_with("\n\n Press any key to close."));
}
