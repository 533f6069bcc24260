use grid::ast::{BinOp, Expr};
use grid::lex::lex;
use grid::model::{Sheet, Value};
use grid::num::{Bits, Numerics, Op};
use grid::parse::{binop, lbp, parse};
use grid::recalc::recalc;
use grid::refs::{cell_ref, parse_ref};
use grid::value::{boolval, classify, compare, find_function, num, truthy, values_eq, Func};

fn numerics() -> Numerics<
    impl Fn(&str) -> Option<Bits>,
    impl Fn(Bits) -> String,
    impl Fn(Op, Bits, Bits) -> Bits,
> {
    Numerics {
        parse: |s: &str| s.parse::<f64>().ok().map(f64::to_bits),
        fixed: |n: Bits| format!("{:.10}", f64::from_bits(n)),
        calc: |op: Op, x: Bits, y: Bits| {
            let (a, b) = (f64::from_bits(x), f64::from_bits(y));
            let r = match op {
                Op::Neg => -a,
                Op::Add => a + b,
                Op::Sub => a - b,
                Op::Mul => a * b,
                Op::Div => a / b,
                Op::Pow => a.powf(b),
                Op::PowTen => 10f64.powi(a as i32),
                Op::Nearest => a.round(),
                Op::Floor => a.floor(),
                Op::Abs => a.abs(),
                Op::Sqrt => a.sqrt(),
                Op::Min => a.min(b),
                Op::Max => a.max(b),
                Op::OfCount => x as f64,
                Op::Truncate => return a as u64,
            };
            r.to_bits()
        },
    }
}

/// The sheet with these cells, recalculated.
fn sheet(cells: &[(&str, &str)]) -> Sheet {
    let mut s = Sheet::default();
    for (at, raw) in cells {
        let (r, c) = parse_ref(at).unwrap();
        s.set(r, c, raw.to_string());
    }
    recalc(&numerics(), &mut s);
    s
}

/// What a cell shows.
fn shown(s: &Sheet, at: &str) -> String {
    let (r, c) = parse_ref(at).unwrap();
    s.value(r, c).display(&numerics())
}

/// What a formula shows in an otherwise empty sheet.
fn value(formula: &str) -> String {
    shown(&sheet(&[("Z99", formula)]), "Z99")
}

fn number(n: f64) -> Expr {
    Expr::Num(n.to_bits())
}

fn binary(op: BinOp, l: Expr, r: Expr) -> Expr {
    Expr::Binary(op, Box::new(l), Box::new(r))
}

fn parsed(s: &str) -> Result<Expr, String> {
    parse(&numerics(), s)
}

#[test]
fn operators_group_by_precedence() {
    let add = binary(
        BinOp::Add,
        number(1.0),
        binary(BinOp::Mul, number(2.0), number(3.0)),
    );
    assert_eq!(parsed("1+2*3"), Ok(add));
    let sub = binary(
        BinOp::Sub,
        binary(BinOp::Sub, number(9.0), number(4.0)),
        number(3.0),
    );
    assert_eq!(parsed("9-4-3"), Ok(sub));
    let pow = binary(
        BinOp::Pow,
        number(2.0),
        binary(BinOp::Pow, number(3.0), number(2.0)),
    );
    assert_eq!(parsed("2^3^2"), Ok(pow));
    let sign = binary(
        BinOp::Pow,
        Expr::Unary('-', Box::new(number(2.0))),
        number(2.0),
    );
    assert_eq!(parsed("-2^2"), Ok(sign));
    assert_eq!(parsed("+5"), Ok(number(5.0)));
}

#[test]
fn names_ranges_and_calls_parse() {
    assert_eq!(parsed("b3"), Ok(Expr::Ref(2, 1)));
    assert_eq!(parsed("$B$3"), Ok(Expr::Ref(2, 1)));
    assert_eq!(parsed("A1:B2"), Ok(Expr::Range((0, 0), (1, 1))));
    assert_eq!(parsed("true"), Ok(Expr::Bool(true)));
    assert_eq!(parsed("False"), Ok(Expr::Bool(false)));
    assert_eq!(parsed("nonsense"), Ok(Expr::ErrName));
    assert_eq!(parsed("sum()"), Ok(Expr::Call("SUM".to_string(), Vec::new())));
    assert_eq!(
        parsed("Max(1,A1:A2)"),
        Ok(Expr::Call("MAX".to_string(), vec![number(1.0), Expr::Range((0, 0), (1, 0))]))
    );
    assert_eq!(parsed("\"a\"\"b\""), Ok(Expr::Str("a\"b".to_string())));
    assert_eq!(parsed("50%%"), Ok(Expr::Unary(
        '%',
        Box::new(Expr::Unary('%', Box::new(number(50.0)))),
    )));
}

#[test]
fn what_does_not_parse() {
    assert_eq!(parsed(""), Err("SYNTAX".to_string()));
    assert_eq!(parsed("1+"), Err("SYNTAX".to_string()));
    assert_eq!(parsed("(1"), Err("SYNTAX".to_string()));
    assert_eq!(parsed("1 2"), Err("SYNTAX".to_string()));
    assert_eq!(parsed("SUM(1,)"), Err("SYNTAX".to_string()));
    assert_eq!(parsed("#"), Err("SYNTAX".to_string()));
    assert_eq!(parsed("A1:7"), Err("REF".to_string()));
    assert_eq!(parsed("A1:foo"), Err("REF".to_string()));
    assert_eq!(parsed("1.2.3"), Err("NUM".to_string()));
}

#[test]
fn tokens_and_operators() {
    let toks = lex(&numerics(), "1 <> \"x\"").unwrap();
    assert_eq!(toks.len(), 3);
    assert_eq!(binop(&toks[1]), Some(BinOp::Ne));
    assert_eq!(binop(&toks[0]), None);
    assert_eq!(lbp(BinOp::Pow), 5);
    assert_eq!(lbp(BinOp::Le), 1);
    assert!(lbp(BinOp::Mul) > lbp(BinOp::Sub));
    assert!(lbp(BinOp::Concat) > lbp(BinOp::Eq));
}

#[test]
fn arithmetic() {
    assert_eq!(value("=1+2*3"), "7");
    assert_eq!(value("=(1+2)*3"), "9");
    assert_eq!(value("=2^3^2"), "512");
    assert_eq!(value("=-2^2"), "4");
    assert_eq!(value("=7/2"), "3.5");
    assert_eq!(value("=1/0"), "#DIV/0");
    assert_eq!(value("=50%"), "0.5");
    assert_eq!(value("=\"3\"+\" 4 \""), "7");
    assert_eq!(value("=TRUE+1"), "2");
    assert_eq!(value("=\"x\"+1"), "#VALUE");
    assert_eq!(value("=-\"x\""), "#VALUE");
    assert_eq!(value("=A1+1"), "1");
    assert_eq!(value("=A1:A2"), "#VALUE");
    assert_eq!(value("=oops"), "#NAME");
    assert_eq!(value("=OOPS(1)"), "#NAME");
    assert_eq!(value("=1+"), "#SYNTAX");
}

#[test]
fn text_and_comparisons() {
    assert_eq!(value("=\"a\"&1&TRUE"), "a1TRUE");
    assert_eq!(value("=1=1"), "TRUE");
    assert_eq!(value("=1<>1"), "FALSE");
    assert_eq!(value("=2>=3"), "FALSE");
    assert_eq!(value("=\"abc\"=\"ABC\""), "TRUE");
    assert_eq!(value("=\"abc\"<\"abd\""), "TRUE");
    assert_eq!(value("=\"\u{c9}t\u{e9}\"=\"\u{e9}T\u{c9}\""), "TRUE");
    assert_eq!(value("=\"b\">\"abc\""), "TRUE");
    assert_eq!(value("=10>9"), "TRUE");
    assert_eq!(value("=\"10\">\"9\""), "TRUE");
    assert_eq!(value("=\"nan\"=1"), "#NUM");
    assert_eq!(value("=(1/0)=1"), "#DIV/0");
    assert_eq!(value("=1&(1/0)"), "#DIV/0");
}

#[test]
fn aggregates() {
    let s = sheet(&[
        ("A1", "4"),
        ("A2", "x"),
        ("A4", "10"),
        ("B1", "=SUM(A1:A4)"),
        ("B2", "=AVERAGE(A1:A4)"),
        ("B3", "=AVG(A2,A3)"),
        ("B4", "=MIN(A1:A4,3)"),
        ("B5", "=MAX(A4:A1)"),
        ("B6", "=COUNT(A1:A4)"),
        ("B7", "=COUNTA(A1:A4)"),
        ("B8", "=PRODUCT(A1:A4,0.5)"),
        ("B9", "=SUM()"),
        ("C1", "=1/0"),
        ("C2", "=SUM(A1,C1)"),
        ("C3", "=COUNTA(C1:C2)"),
    ]);
    assert_eq!(shown(&s, "B1"), "14");
    assert_eq!(shown(&s, "B2"), "7");
    assert_eq!(shown(&s, "B3"), "#DIV/0");
    assert_eq!(shown(&s, "B4"), "3");
    assert_eq!(shown(&s, "B5"), "10");
    assert_eq!(shown(&s, "B6"), "2");
    assert_eq!(shown(&s, "B7"), "3");
    assert_eq!(shown(&s, "B8"), "20");
    assert_eq!(shown(&s, "B9"), "0");
    assert_eq!(shown(&s, "C2"), "#DIV/0");
    assert_eq!(shown(&s, "C3"), "2");
}

#[test]
fn logic() {
    assert_eq!(value("=IF(1,\"y\",\"n\")"), "y");
    assert_eq!(value("=IF(0,\"y\",\"n\")"), "n");
    assert_eq!(value("=IF(0,1)"), "FALSE");
    assert_eq!(value("=IF(1)"), "#N/A");
    assert_eq!(value("=IF(\"maybe\",1,2)"), "#VALUE");
    assert_eq!(value("=AND(1,TRUE)"), "TRUE");
    assert_eq!(value("=AND(1,0)"), "FALSE");
    assert_eq!(value("=AND()"), "TRUE");
    assert_eq!(value("=OR(0,0)"), "FALSE");
    assert_eq!(value("=OR(0,2)"), "TRUE");
    assert_eq!(value("=OR(1,\"x\")"), "#VALUE");
    assert_eq!(value("=NOT(0)"), "TRUE");
    assert_eq!(value("=NOT(1,2)"), "#N/A");
}

#[test]
fn number_functions() {
    assert_eq!(value("=ROUND(2.345,2)"), "2.35");
    assert_eq!(value("=ROUND(2.5)"), "3");
    assert_eq!(value("=ROUND(-2.5)"), "-3");
    assert_eq!(value("=ROUND(1234,-2)"), "1200");
    assert_eq!(value("=ROUND(1.26,\"x\")"), "1");
    assert_eq!(value("=ROUND(\"x\",1)"), "#VALUE");
    assert_eq!(value("=ABS(-3)"), "3");
    assert_eq!(value("=INT(-2.5)"), "-3");
    assert_eq!(value("=SQRT(9)"), "3");
    assert_eq!(value("=SQRT(-1)"), "NaN");
    assert_eq!(value("=MOD(7,3)"), "1");
    assert_eq!(value("=MOD(-7,3)"), "2");
    assert_eq!(value("=MOD(1,0)"), "#NUM");
    assert_eq!(value("=POWER(2,10)"), "1024");
    assert_eq!(value("=POWER(-8,1/3)"), "#NUM");
    assert_eq!(value("=POWER(\"x\",1/0)"), "#VALUE");
}

#[test]
fn text_functions() {
    assert_eq!(value("=CONCAT(\"a\",1,\"b\")"), "a1b");
    assert_eq!(value("=CONCATENATE(\"a\",1/0)"), "#DIV/0");
    assert_eq!(value("=LEN(\"h\u{e9}llo\")"), "5");
    assert_eq!(value("=LEN(1/0)"), "#DIV/0");
    assert_eq!(value("=UPPER(\"stra\u{df}e\")"), "STRASSE");
    assert_eq!(value("=LOWER(\"\u{c9}A\")"), "\u{e9}a");
    assert_eq!(value("=TRIM(\"  a b \")"), "a b");
    assert_eq!(value("=LEFT(\"hello\",2)"), "he");
    assert_eq!(value("=LEFT(\"hello\",\"x\")"), "h");
    assert_eq!(value("=LEFT(\"hello\")"), "");
    assert_eq!(value("=LEFT(\"hello\",-1)"), "");
    assert_eq!(value("=RIGHT(\"hello\",3)"), "llo");
    assert_eq!(value("=RIGHT(\"hello\",99)"), "hello");
    assert_eq!(value("=MID(\"hello\",2,3)"), "ell");
    assert_eq!(value("=MID(\"hello\",0,2)"), "he");
    assert_eq!(value("=MID(\"hello\",9,2)"), "");
    assert_eq!(value("=MID(\"hello\",4,99)"), "lo");
    assert_eq!(value("=MID(\"hello\",2,10^30)"), "ello");
}

#[test]
fn lookups() {
    let s = sheet(&[
        ("A1", "apple"),
        ("B1", "3"),
        ("A2", "Pear"),
        ("B2", "5"),
        ("A3", "7"),
        ("B3", "seven"),
        ("D1", "=VLOOKUP(\"PEAR\",A1:B3,2)"),
        ("D2", "=VLOOKUP(7,A1:B3,2)"),
        ("D3", "=VLOOKUP(\"plum\",A1:B3,2)"),
        ("D4", "=VLOOKUP(\"apple\",A1:B3,3)"),
        ("D5", "=VLOOKUP(\"apple\",A1,2)"),
        ("D6", "=VLOOKUP(\"apple\",A1:B3)"),
        ("D7", "=VLOOKUP(\"apple\",B3:A1,0)"),
    ]);
    assert_eq!(shown(&s, "D1"), "5");
    assert_eq!(shown(&s, "D2"), "seven");
    assert_eq!(shown(&s, "D3"), "#N/A");
    assert_eq!(shown(&s, "D4"), "#REF");
    assert_eq!(shown(&s, "D5"), "#VALUE");
    assert_eq!(shown(&s, "D6"), "#N/A");
    assert_eq!(shown(&s, "D7"), "apple");
}

#[test]
fn a_lookup_takes_the_first_match() {
    let s = sheet(&[
        ("A1", "a"),
        ("B1", "0"),
        ("A2", "k"),
        ("B2", "1"),
        ("A3", "K"),
        ("B3", "2"),
        ("D1", "=VLOOKUP(\"k\",A1:B3,2)"),
    ]);
    assert_eq!(shown(&s, "D1"), "1");
}

#[test]
fn values_follow_from_values() {
    let s = sheet(&[
        ("A1", "=SUM(B1:B3)*C1"),
        ("B1", "1"),
        ("B2", "=B1+1"),
        ("B3", "=B2+1"),
        ("C1", "=IF(B3>2,10,A9)"),
        ("A2", "=A1&\"!\""),
    ]);
    for (at, expected) in
        [("A1", "60"), ("B1", "1"), ("B2", "2"), ("B3", "3"), ("C1", "10"), ("A2", "60!")]
    {
        assert_eq!(shown(&s, at), expected);
    }
}

#[test]
fn references_are_followed() {
    let s = sheet(&[("A1", "=B1+1"), ("B1", "=C1*2"), ("C1", "5"), ("D1", "=E7")]);
    assert_eq!(shown(&s, "A1"), "11");
    assert_eq!(shown(&s, "B1"), "10");
    assert_eq!(shown(&s, "C1"), "5");
    assert_eq!(s.value(0, 3), Value::Empty);
}

#[test]
fn cycles_are_reported() {
    let s = sheet(&[("A1", "=A1"), ("B1", "=C1"), ("C1", "=D1"), ("D1", "=B1"), ("E1", "=B1")]);
    for at in ["A1", "B1", "C1", "D1", "E1"] {
        assert_eq!(shown(&s, at), "#CYCLE");
    }
    let s = sheet(&[("A1", "=B1+1"), ("B1", "=SUM(A1:A2)"), ("A2", "2")]);
    assert_eq!(shown(&s, "A1"), "#CYCLE");
    assert_eq!(shown(&s, "B1"), "#CYCLE");
    assert_eq!(shown(&s, "A2"), "2");
}

#[test]
fn formulas_in_a_ring_hand_the_error_on() {
    let rings: [&[(&str, &str)]; 6] = [
        &[("A1", "=B1"), ("B1", "=A1+1")],
        &[("A1", "=-B1"), ("B1", "=A1%")],
        &[("A1", "=2*B1"), ("B1", "=A1&\"x\""), ("C1", "=B1>3")],
        &[("A1", "=SUM(A1:B9)")],
        &[("A1", "=ABS(B1)"), ("B1", "=ROUND(C1,2)"), ("C1", "=IF(A1,1,2)")],
        &[("A1", "=AND(B1,0)"), ("B1", "=CONCAT(UPPER(A1),1)")],
    ];
    for ring in rings {
        let s = sheet(ring);
        for (at, _) in ring {
            assert_eq!(shown(&s, at), "#CYCLE");
        }
    }
}

#[test]
fn a_branch_not_taken_makes_no_cycle() {
    let s = sheet(&[("A1", "=IF(1,2,A1)")]);
    assert_eq!(shown(&s, "A1"), "2");
}

#[test]
fn an_open_cell_reads_as_cycle() {
    let s = sheet(&[("A1", "=IF(1,B1,0)"), ("B1", "=COUNTA(A1)")]);
    assert_eq!(shown(&s, "B1"), "1");
    assert_eq!(shown(&s, "A1"), "1");
}

#[test]
fn recalculating_again_changes_nothing() {
    let mut s = sheet(&[("A1", "=B1&\"!\""), ("B1", "hi"), ("A2", "=A2")]);
    let before: Vec<(Value, String)> =
        s.cells.values().map(|c| (c.value.clone(), c.raw.clone())).collect();
    recalc(&numerics(), &mut s);
    let after: Vec<(Value, String)> =
        s.cells.values().map(|c| (c.value.clone(), c.raw.clone())).collect();
    assert_eq!(before, after);
    assert_eq!(shown(&s, "A1"), "hi!");
}

#[test]
fn a_range_is_its_cells() {
    let cells = [("A1", "1"), ("B1", "x"), ("A2", "3"), ("B2", "y")];
    for (range, list) in [
        ("=CONCAT(A1:B2)", "=CONCAT(A1,B1,A2,B2)"),
        ("=CONCAT(B2:A1)", "=CONCAT(A1:B2)"),
        ("=CONCAT(A2:B1)", "=CONCAT(A1:B2)"),
        ("=COUNT(A1:B2)", "=COUNT(A1,B1,A2,B2)"),
    ] {
        let mut with = cells.to_vec();
        with.push(("D1", range));
        with.push(("D2", list));
        let s = sheet(&with);
        assert_eq!(shown(&s, "D1"), shown(&s, "D2"));
    }
    let mut with = cells.to_vec();
    with.push(("D1", "=CONCAT(A1:B2)"));
    assert_eq!(shown(&sheet(&with), "D1"), "1x3y");
}

#[test]
fn names_and_quoted_texts_are_themselves() {
    for (r, c) in [(0, 0), (41, 27), (99999, 18277)] {
        assert_eq!(parsed(&cell_ref(r, c)), Ok(Expr::Ref(r, c)));
    }
    for t in ["", "a", "say \"hi\"", "\"", ",)(", "\u{e9}"] {
        let literal = format!("\"{}\"", t.replace('"', "\"\""));
        assert_eq!(parsed(&literal), Ok(Expr::Str(t.to_string())));
    }
}

#[test]
fn single_values() {
    let n = numerics();
    let text = |s: &str| Value::Text(s.to_string());
    assert_eq!(boolval(true), text("TRUE"));
    assert_eq!(num(&n, &text(" TRUE ")), Ok(1f64.to_bits()));
    assert_eq!(num(&n, &Value::Empty), Ok(0));
    assert_eq!(num(&n, &text("abc")), Err(Value::Error("VALUE".to_string())));
    assert_eq!(truthy(&n, &text("nan")), Ok(true));
    assert_eq!(truthy(&n, &text("-0")), Ok(false));
    assert!(values_eq(&n, &text("1.0"), &text("1")));
    assert!(values_eq(&n, &text("aB"), &text("Ab")));
    assert!(!values_eq(&n, &text("\u{e9}"), &text("\u{c9}")));
    assert_eq!(compare(&n, BinOp::Lt, &text("A"), &text("b")), text("TRUE"));
    assert_eq!(classify(&n, "1e3"), Value::Number(1000f64.to_bits()));
    assert_eq!(classify(&n, " 1"), text(" 1"));
    assert_eq!(classify(&n, ""), Value::Empty);
    assert_eq!(find_function("AVG"), Func::Average);
    assert_eq!(find_function("sum"), Func::Unknown);
}
