use std::path::PathBuf;

use grid::model::{Book, Color, Sheet, Value};
use grid::num::{Bits, Numerics, Op};
use grid::recalc::recalc;
use grid::view::{confirm_quit, Action, Answer, App};

fn numerics() -> Numerics<
    impl Fn(&str) -> Option<Bits>,
    impl Fn(Bits) -> String,
    impl Fn(Op, Bits, Bits) -> Bits,
> {
    Numerics {
        parse: |s: &str| s.parse::<f64>().ok().map(f64::to_bits),
        fixed: |n: Bits| format!("{:.10}", f64::from_bits(n)),
        calc: |op: Op, x: Bits, y: Bits| {
            let (a, b) = (f64::from_bits(x), f64::from_bits(y));
            let r = match op {
                Op::Neg => -a,
                Op::Add => a + b,
                Op::Sub => a - b,
                Op::Mul => a * b,
                Op::Div => a / b,
                Op::Pow => a.powf(b),
                Op::PowTen => 10f64.powi(a as i32),
                Op::Nearest => a.round(),
                Op::Floor => a.floor(),
                Op::Abs => a.abs(),
                Op::Sqrt => a.sqrt(),
                Op::Min => a.min(b),
                Op::Max => a.max(b),
                Op::OfCount => x as f64,
                Op::Truncate => return a as u64,
            };
            r.to_bits()
        },
    }
}

/// A program that has opened a book with two sheets on a terminal of 80 by 24.
fn app() -> App {
    let mut one = Sheet::named("one".to_string());
    for r in 0..50 {
        for c in 0..4 {
            one.set(r, c, format!("{}", r * 10 + c));
        }
    }
    recalc(&numerics(), &mut one);
    let two = Sheet::named("two".to_string());
    let book =
        Book { sheets: vec![one, two], active: 0, path: PathBuf::from("b.csv"), dirty: false };
    App::new(book, 80, 24)
}

fn press(a: &mut App, keys: &[&str]) -> Action {
    let mut last = Action::Nothing;
    for k in keys {
        last = a.handle(&numerics(), k);
    }
    last
}

fn cursor(a: &App) -> (u32, u32) {
    (a.cur_row, a.cur_col)
}

#[test]
fn keys_move_the_cursor() {
    let mut a = app();
    press(&mut a, &["j", "DOWN", "l", "RIGHT"]);
    assert_eq!(cursor(&a), (2, 2));
    press(&mut a, &["k", "h"]);
    assert_eq!(cursor(&a), (1, 1));
    press(&mut a, &["UP", "UP", "LEFT", "LEFT"]);
    assert_eq!(cursor(&a), (0, 0));
    press(&mut a, &["G", "$"]);
    assert_eq!(cursor(&a), (49, 3));
    press(&mut a, &["j", "j", "l", "l"]);
    assert_eq!(cursor(&a), (50, 4));
    press(&mut a, &["g", "0"]);
    assert_eq!(cursor(&a), (0, 0));
    press(&mut a, &["C-END", "END"]);
    assert_eq!(cursor(&a), (49, 3));
    press(&mut a, &["C-HOME", "HOME"]);
    assert_eq!(cursor(&a), (0, 0));
    press(&mut a, &["PgDOWN"]);
    assert_eq!(cursor(&a), (21, 0));
    press(&mut a, &["PgDOWN", "PgDOWN"]);
    assert_eq!(cursor(&a), (50, 0));
    press(&mut a, &["PgUP"]);
    assert_eq!(cursor(&a), (29, 0));
    press(&mut a, &["PgUP", "PgUP"]);
    assert_eq!(cursor(&a), (0, 0));
}

#[test]
fn keys_ask_for_actions() {
    let mut a = app();
    for (key, action) in [
        ("ENTER", Action::Edit),
        ("i", Action::Edit),
        ("=", Action::EditFormula),
        ("c", Action::AiEdit),
        ("C", Action::SetColor),
        ("?", Action::Help),
        ("s", Action::Save),
        ("RESIZE", Action::Resize),
        ("q", Action::Quit),
        ("Q", Action::Quit),
        ("x", Action::Nothing),
        ("", Action::Nothing),
    ] {
        assert_eq!(press(&mut a, &[key]), action);
    }
    a.edit_cell(&numerics(), "0", "1".to_string());
    assert_eq!(press(&mut a, &["q"]), Action::ConfirmQuit);
    assert_eq!(press(&mut a, &["Q"]), Action::Quit);
}

#[test]
fn quitting_is_confirmed() {
    assert_eq!(confirm_quit("y"), Some(Answer::Save));
    assert_eq!(confirm_quit("Y"), Some(Answer::Save));
    assert_eq!(confirm_quit("n"), Some(Answer::Discard));
    assert_eq!(confirm_quit("N"), Some(Answer::Discard));
    assert_eq!(confirm_quit("ESC"), Some(Answer::Cancel));
    assert_eq!(confirm_quit("x"), None);
}

#[test]
fn edits_recalculate_and_can_be_undone() {
    let n = numerics();
    let mut a = app();
    press(&mut a, &["l"]);
    a.edit_cell(&n, "1", "=A1+41".to_string());
    assert!(a.book.dirty);
    assert_eq!(a.book.sheet().value(0, 1), Value::Number(41f64.to_bits()));
    assert_eq!(a.raw(), "=A1+41");
    assert_eq!(a.undo.len(), 1);
    press(&mut a, &["u"]);
    assert_eq!(a.status, "Undone");
    assert_eq!(a.raw(), "1");
    assert_eq!(a.book.sheet().value(0, 1), Value::Number(1f64.to_bits()));
    press(&mut a, &["u"]);
    assert_eq!(a.status, "Nothing to undo");
    press(&mut a, &["j"]);
    assert_eq!(a.status, "");
}

#[test]
fn an_unchanged_text_is_no_edit() {
    let mut a = app();
    a.edit_cell(&numerics(), "0", "0".to_string());
    assert_eq!(a.undo.len(), 0);
    assert!(!a.book.dirty);
}

#[test]
fn clearing_a_cell() {
    let mut a = app();
    press(&mut a, &["d"]);
    assert_eq!(a.raw(), "");
    assert_eq!(a.book.sheet().value(0, 0), Value::Empty);
    press(&mut a, &["DEL"]);
    assert_eq!(a.undo.len(), 1);
    press(&mut a, &["u"]);
    assert_eq!(a.raw(), "0");
}

#[test]
fn only_so_many_edits_are_remembered() {
    let n = numerics();
    let mut a = app();
    for i in 0..105 {
        let cur = a.raw().to_string();
        a.edit_cell(&n, &cur, format!("v{}", i));
    }
    assert_eq!(a.undo.len(), 100);
    for _ in 0..100 {
        press(&mut a, &["u"]);
    }
    assert_eq!(a.raw(), "v4");
    press(&mut a, &["u"]);
    assert_eq!(a.status, "Nothing to undo");
}

#[test]
fn sheets_are_cycled() {
    let mut a = app();
    press(&mut a, &["G", "TAB"]);
    assert_eq!((a.book.active, cursor(&a)), (1, (0, 0)));
    press(&mut a, &["TAB"]);
    assert_eq!(a.book.active, 0);
    press(&mut a, &["S-TAB"]);
    assert_eq!(a.book.active, 1);
    a.switch_sheet(5);
    assert_eq!(a.book.active, 0);
    a.switch_sheet(i32::MIN);
    assert_eq!(a.book.active, 0);
    a.switch_sheet(-7);
    assert_eq!(a.book.active, 1);
    a.switch_sheet(7);
    assert_eq!(a.book.active, 0);
    let mut single = App::new(Book::empty(PathBuf::from("x")), 80, 24);
    press(&mut single, &["TAB", "S-TAB"]);
    assert_eq!(single.book.active, 0);
}

#[test]
fn undo_goes_back_to_the_sheet_of_the_edit() {
    let n = numerics();
    let mut a = app();
    press(&mut a, &["TAB"]);
    a.edit_cell(&n, "", "x".to_string());
    press(&mut a, &["TAB", "G", "$", "u"]);
    assert_eq!(a.book.active, 1);
    assert_eq!(a.book.sheets[1].cells.len(), 0);
    assert_eq!(cursor(&a), (0, 0));
}

#[test]
fn cells_are_coloured() {
    let mut a = app();
    assert_eq!(a.color_prompt(), "");
    a.set_color("196,orange");
    assert_eq!(a.book.sheet().colors(0, 0), (Some(Color::Palette(196)), Some(Color::Palette(208))));
    assert_eq!(a.color_prompt(), "196,208");
    assert!(a.book.dirty);
    a.set_color("");
    assert_eq!(a.book.sheet().colors(0, 0), (None, None));
    press(&mut a, &["u"]);
    assert_eq!(a.color_prompt(), "196,208");
}

#[test]
fn typed_colours_are_offered_again() {
    let mut a = app();
    a.set_color("red,250");
    assert_eq!(a.book.sheet().colors(0, 0), (Some(Color::Palette(1)), Some(Color::Palette(250))));
    assert_eq!(a.color_prompt(), "1,250");
    a.set_color("white,grey");
    assert_eq!(a.color_prompt(), "7,8");
    a.set_color(",blue");
    assert_eq!(a.color_prompt(), ",4");
    for n in 0..=255u8 {
        a.set_color(&n.to_string());
        let typed = a.book.sheet().colors(0, 0);
        let offered = a.color_prompt();
        assert_eq!(offered, format!("{},", n));
        a.set_color(&offered);
        assert_eq!(a.book.sheet().colors(0, 0), typed);
    }
}

#[test]
fn snapshots_are_bounded_and_in_order() {
    let mut a = app();
    for i in 0..103u32 {
        a.book.sheets[0].name = format!("s{}", i);
        a.snapshot();
        assert_eq!(a.undo.len(), (i as usize + 1).min(100));
        assert_eq!(a.undo[a.undo.len() - 1].1.name, format!("s{}", i));
    }
    assert_eq!(a.undo[0].1.name, "s3");
    assert!(!a.book.dirty);
}

#[test]
fn ai_edits_replace_the_sheet() {
    let n = numerics();
    let mut a = app();
    assert!(a.ai_prompt("  ").is_none());
    let prompt = a.ai_prompt("double it").unwrap();
    assert!(prompt.contains("INSTRUCTION: double it"));
    assert!(prompt.contains("<<<CSV\n0,1,2,3\n10,11,12,13\n"));
    press(&mut a, &["G", "$"]);
    a.ai_edit(&n, Ok("<<<CSV\n1,=A1*2\nCSV>>>".to_string()));
    assert_eq!(a.status, "AI edit applied");
    assert_eq!(a.book.sheet().name, "one");
    assert_eq!(a.book.sheet().value(0, 1), Value::Number(2f64.to_bits()));
    assert_eq!(cursor(&a), (1, 2));
    press(&mut a, &["u"]);
    assert_eq!(a.book.sheet().nrows, 50);
    a.ai_edit(&n, Ok(" ".to_string()));
    assert_eq!(a.status, "AI: no usable CSV in the reply");
    a.ai_edit(&n, Err("offline".to_string()));
    assert_eq!(a.status, "AI: offline");
}

#[test]
fn saving_is_noted() {
    let mut a = app();
    a.set_color("1");
    a.saved(Err("disk full".to_string()), "b.csv");
    assert_eq!(a.status, "Save failed: disk full");
    assert!(a.book.dirty);
    a.saved(Ok(()), "b.csv");
    assert_eq!(a.status, "Saved b.csv");
    assert!(!a.book.dirty);
}

#[test]
fn resizing_is_noted() {
    let mut a = app();
    assert!(!a.resize(80, 24));
    assert!(a.resize(100, 30));
    assert_eq!(a.data_rows(), 27);
}
