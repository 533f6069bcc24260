use grid::csv::{csv_to_sheet, parse_csv_line, sheet_to_csv};
use grid::model::Sheet;
use grid::text::{split, split_lines};

fn fields(line: &str) -> Vec<String> {
    parse_csv_line(&line.chars().collect::<Vec<char>>())
}

fn read(text: &str) -> Sheet {
    csv_to_sheet(text, "S".to_string())
}

fn pieces(v: Vec<Vec<char>>) -> Vec<String> {
    v.into_iter().map(|p| p.into_iter().collect()).collect()
}

#[test]
fn lines_split_into_fields() {
    assert_eq!(fields("a,b,c"), ["a", "b", "c"]);
    assert_eq!(fields(""), [""]);
    assert_eq!(fields(",x,"), ["", "x", ""]);
    assert_eq!(fields("\"a,b\",c"), ["a,b", "c"]);
    assert_eq!(fields("\"say \"\"hi\"\"\""), ["say \"hi\""]);
    assert_eq!(fields("a\"b,c\"d"), ["ab,cd"]);
    assert_eq!(fields("\"open,still"), ["open,still"]);
    assert_eq!(fields("\"\""), [""]);
}

#[test]
fn texts_split_into_lines() {
    let lines = |s: &str| pieces(split_lines(&s.chars().collect::<Vec<char>>()));
    assert_eq!(lines(""), Vec::<String>::new());
    assert_eq!(lines("a"), ["a"]);
    assert_eq!(lines("a\n"), ["a"]);
    assert_eq!(lines("a\r\nb\rc\n\nd\r"), ["a", "b\rc", "", "d\r"]);
    for s in ["", "\n", "\r\n", "a\r\r\n", "x\ny", "\r", "p\n\n\nq"] {
        assert_eq!(lines(s), s.lines().map(String::from).collect::<Vec<String>>());
    }
    let cut = |s: &str| pieces(split(&s.chars().collect::<Vec<char>>(), ','));
    assert_eq!(cut("1,,2"), ["1", "", "2"]);
    assert_eq!(cut(""), [""]);
}

#[test]
fn text_becomes_a_sheet() {
    let s = read("a,,=A1+1\n\n,x\n,,\n");
    assert_eq!(s.name, "S");
    assert_eq!(s.raw(0, 0), "a");
    assert_eq!(s.raw(0, 1), "");
    assert_eq!(s.raw(0, 2), "=A1+1");
    assert_eq!(s.raw(2, 1), "x");
    assert_eq!(s.cells.len(), 3);
    assert_eq!((s.nrows, s.ncols), (3, 3));
    let empty = read("");
    assert_eq!((empty.nrows, empty.ncols), (0, 0));
}

#[test]
fn a_sheet_becomes_text() {
    let mut s = Sheet::default();
    s.set(0, 0, "plain".to_string());
    s.set(0, 1, "a,b".to_string());
    s.set(2, 1, "say \"hi\"".to_string());
    s.set(1, 0, "two\nlines".to_string());
    assert_eq!(
        sheet_to_csv(&s),
        "plain,\"a,b\"\n\"two\nlines\",\n,\"say \"\"hi\"\"\"\n"
    );
    assert_eq!(sheet_to_csv(&Sheet::default()), "");
}

#[test]
fn what_is_written_reads_back() {
    let mut s = Sheet::default();
    let texts = ["x", "=SUM(A1:B2)", "a,b", "\"", "\"\"", ",\",", " lead", "tab\t", "caf\u{e9}", "q\r"];
    for (i, t) in texts.iter().enumerate() {
        s.set(i as u32 / 3, i as u32 % 3, t.to_string());
    }
    s.set(7, 3, "end".to_string());
    let back = read(&sheet_to_csv(&s));
    for r in 0..8 {
        for c in 0..4 {
            assert_eq!(back.raw(r, c), s.raw(r, c));
        }
    }
    assert_eq!(back.cells.len(), s.cells.len());
}

#[test]
fn clearing_a_cell_removes_it() {
    let mut s = Sheet::default();
    s.set(1, 1, "x".to_string());
    s.set(1, 1, String::new());
    assert_eq!(s.cells.len(), 0);
    assert_eq!((s.nrows, s.ncols), (2, 2));
    assert_eq!(s.raw(1, 1), "");
}
