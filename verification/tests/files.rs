use std::path::PathBuf;

use grid::io::{
    data_to_raw, ext, load, load_calamine, load_csv, save, save_csv, sidecar_path, CellData,
    Content, Format, LoadedCell, LoadedSheet, Output,
};
use grid::model::{Book, Color, Sheet};
use grid::num::{Bits, Numerics, Op};
use grid::recalc::{recalc, recalc_book};

fn numerics() -> Numerics<
    impl Fn(&str) -> Option<Bits>,
    impl Fn(Bits) -> String,
    impl Fn(Op, Bits, Bits) -> Bits,
> {
    Numerics {
        parse: |s: &str| s.parse::<f64>().ok().map(f64::to_bits),
        fixed: |n: Bits| format!("{:.10}", f64::from_bits(n)),
        calc: |op: Op, x: Bits, y: Bits| {
            let (a, b) = (f64::from_bits(x), f64::from_bits(y));
            let r = match op {
                Op::Neg => -a,
                Op::Add => a + b,
                Op::Sub => a - b,
                Op::Mul => a * b,
                Op::Div => a / b,
                Op::Pow => a.powf(b),
                Op::PowTen => 10f64.powi(a as i32),
                Op::Nearest => a.round(),
                Op::Floor => a.floor(),
                Op::Abs => a.abs(),
                Op::Sqrt => a.sqrt(),
                Op::Min => a.min(b),
                Op::Max => a.max(b),
                Op::OfCount => x as f64,
                Op::Truncate => return a as u64,
            };
            r.to_bits()
        },
    }
}

fn extension(name: &str) -> String {
    ext(name).into_iter().collect()
}

fn cell(data: CellData, formula: Option<&str>) -> LoadedCell {
    LoadedCell { data, formula: formula.map(String::from) }
}

fn book(sheets: Vec<Sheet>) -> Book {
    Book { sheets, active: 0, path: PathBuf::from("b"), dirty: false }
}

#[test]
fn extensions() {
    assert_eq!(extension("a.csv"), "csv");
    assert_eq!(extension("a.b.XLSX"), "xlsx");
    assert_eq!(extension("a"), "");
    assert_eq!(extension(".hidden"), "");
    assert_eq!(extension("a."), "");
    assert_eq!(extension(""), "");
    assert_eq!(extension(".a.ods"), "ods");
}

#[test]
fn formats_go_by_extension() {
    for name in ["x.xlsx", "x.XLSM", "x.xlsb", "x.xls", "x.ods"] {
        assert_eq!(load(name), Format::Workbook);
    }
    for name in ["x.csv", "x.txt", "x", "xlsx"] {
        assert_eq!(load(name), Format::Csv);
    }
    assert_eq!(sidecar_path("/tmp/a.csv"), "/tmp/a.csv.gcolors");
}

#[test]
fn unsupported_formats_are_refused() {
    let b = Book::empty(PathBuf::from("x.ods"));
    for name in ["xlsm", "xlsb", "xls", "ods"] {
        let why = format!("writing .{} not supported \u{2014} save as .xlsx or .csv", name);
        match save(&numerics(), &b, &format!("x.{}", name)) {
            Err(e) => assert_eq!(e, why),
            Ok(_) => panic!("written"),
        }
    }
}

#[test]
fn csv_files_keep_texts_and_colours() {
    let mut s = Sheet::default();
    s.set(0, 0, "a,b".to_string());
    s.set(1, 2, "=A1".to_string());
    s.set_colors(1, 2, Some(Color::Rgb((0, 255, 0))), Some(Color::Rgb((9, 9, 9))));
    let file = match save(&numerics(), &book(vec![s.clone()]), "t.csv") {
        Ok(Output::Csv(file)) => file,
        _ => panic!("not CSV"),
    };
    let back = load_csv(&file.text, file.sidecar.as_deref(), PathBuf::from("t.csv"));
    assert_eq!(back.sheets.len(), 1);
    assert_eq!(back.sheet().name, "Sheet1");
    assert!(!back.dirty);
    for r in 0..3 {
        for c in 0..4 {
            assert_eq!(back.sheet().raw(r, c), s.raw(r, c));
            assert_eq!(back.sheet().colors(r, c), s.colors(r, c));
        }
    }
    assert!(save_csv(&Book::empty(PathBuf::from("t.csv"))).sidecar.is_none());
}

#[test]
fn every_sheet_of_a_book_is_recalculated() {
    let n = numerics();
    let mut one = Sheet::default();
    one.set(0, 0, "=1+1".to_string());
    let mut two = Sheet::default();
    two.set(0, 0, "=2*3".to_string());
    let mut b = book(vec![one, two]);
    recalc_book(&n, &mut b);
    assert_eq!(b.sheets[0].value(0, 0).display(&n), "2");
    assert_eq!(b.sheets[1].value(0, 0).display(&n), "6");
    assert!(!b.dirty);
}

#[test]
fn workbook_cells_become_text() {
    let n = numerics();
    let text = |d: CellData| data_to_raw(&n, &d);
    assert_eq!(text(CellData::Empty), "");
    assert_eq!(text(CellData::Error), "");
    assert_eq!(text(CellData::Text("x".to_string())), "x");
    assert_eq!(text(CellData::Number(2.50f64.to_bits())), "2.5");
    assert_eq!(text(CellData::Number(123456789.125f64.to_bits())), "123456789.125");
    assert_eq!(text(CellData::Number(100000.123456f64.to_bits())), "100000.123456");
    assert_eq!(text(CellData::Number((-12345.0f64).to_bits())), "-12345");
    assert_eq!(text(CellData::Int(i64::MIN)), "-9223372036854775808");
    assert_eq!(text(CellData::Int(17)), "17");
    assert_eq!(text(CellData::Bool(true)), "TRUE");
    assert_eq!(text(CellData::Bool(false)), "FALSE");
    assert_eq!(text(CellData::DateTime(Some(45292), 0)), "2024-01-01");
}

#[test]
fn workbooks_are_loaded() {
    let sheet = LoadedSheet {
        name: "Data".to_string(),
        corner: (2, 1),
        rows: vec![
            vec![
                cell(CellData::Int(3), Some("1+2")),
                cell(CellData::Text("t".to_string()), Some("")),
            ],
            vec![cell(CellData::Empty, None), cell(CellData::Bool(true), None)],
        ],
    };
    let b = load_calamine(&numerics(), &vec![sheet], PathBuf::from("w.xlsx"));
    assert_eq!(b.sheets.len(), 1);
    let s = b.sheet();
    assert_eq!(s.name, "Data");
    assert_eq!(s.raw(2, 1), "=1+2");
    assert_eq!(s.raw(2, 2), "t");
    assert_eq!(s.raw(3, 2), "TRUE");
    assert_eq!(s.cells.len(), 3);
    assert_eq!((s.nrows, s.ncols), (4, 3));
    let none = load_calamine(&numerics(), &Vec::new(), PathBuf::from("w.xlsx"));
    assert_eq!(none.sheets.len(), 1);
    assert_eq!(none.sheet().name, "Sheet1");
    assert_eq!(none.sheet().cells.len(), 0);
}

#[test]
fn workbooks_are_written() {
    let n = numerics();
    let mut s = Sheet::default();
    s.set(0, 0, "=1+1".to_string());
    s.set(0, 1, "2.5".to_string());
    s.set(1, 0, "text".to_string());
    s.set_colors(1, 0, Some(Color::Rgb((1, 2, 3))), Some(Color::Palette(15)));
    s.set(0, 65537, "far".to_string());
    recalc(&n, &mut s);
    let out = match save(&n, &book(vec![s, Sheet::default()]), "w.xlsx") {
        Ok(Output::Workbook(out)) => out,
        _ => panic!("not a workbook"),
    };
    assert_eq!(out.len(), 2);
    let cells = &out[0].cells;
    assert_eq!(cells.len(), 4);
    assert_eq!((cells[0].row, cells[0].col), (0, 0));
    match &cells[0].content {
        Content::Formula(e, v) => assert_eq!((e.as_str(), v.as_str()), ("1+1", "2")),
        _ => panic!("not a formula"),
    }
    match &cells[1].content {
        Content::Number(x) => assert_eq!(*x, 2.5f64.to_bits()),
        _ => panic!("not a number"),
    }
    assert_eq!((cells[2].row, cells[2].col), (0, 1));
    assert_eq!((cells[3].row, cells[3].col), (1, 0));
    assert_eq!(cells[3].fg, Some(0x010203));
    assert_eq!(cells[3].bg, Some(0xffffff));
    match &cells[3].content {
        Content::Text(t) => assert_eq!(t, "text"),
        _ => panic!("not text"),
    }
    assert_eq!(out[1].cells.len(), 0);
}

#[test]
fn formulas_survive_a_workbook() {
    let n = numerics();
    let mut s = Sheet::default();
    s.set(3, 3, "=SUM(A1:A2)".to_string());
    let out = match save(&n, &book(vec![s]), "w.xlsx") {
        Ok(Output::Workbook(out)) => out,
        _ => panic!("not a workbook"),
    };
    let expr = match &out[0].cells[0].content {
        Content::Formula(e, _) => e.clone(),
        _ => panic!("not a formula"),
    };
    let sheet = LoadedSheet {
        name: "S".to_string(),
        corner: (3, 3),
        rows: vec![vec![LoadedCell { data: CellData::Int(0), formula: Some(expr) }]],
    };
    let back = load_calamine(&n, &vec![sheet], PathBuf::from("w.xlsx"));
    assert_eq!(back.sheet().raw(3, 3), "=SUM(A1:A2)");
}
