use grid::decimal::{decimal_of, parse_unsigned};
use grid::model::{fmt_number, Value};
use grid::num::{integer, nan, order, whole_number, zero, Bits, Numerics, Op, Order};
use grid::rounding::round_text;

fn numerics() -> Numerics<
    impl Fn(&str) -> Option<Bits>,
    impl Fn(Bits) -> String,
    impl Fn(Op, Bits, Bits) -> Bits,
> {
    Numerics {
        parse: |s: &str| s.parse::<f64>().ok().map(f64::to_bits),
        fixed: |n: Bits| format!("{:.10}", f64::from_bits(n)),
        calc: |op: Op, x: Bits, y: Bits| {
            let (a, b) = (f64::from_bits(x), f64::from_bits(y));
            let r = match op {
                Op::Neg => -a,
                Op::Add => a + b,
                Op::Sub => a - b,
                Op::Mul => a * b,
                Op::Div => a / b,
                Op::Pow => a.powf(b),
                Op::PowTen => 10f64.powi(a as i32),
                Op::Nearest => a.round(),
                Op::Floor => a.floor(),
                Op::Abs => a.abs(),
                Op::Sqrt => a.sqrt(),
                Op::Min => a.min(b),
                Op::Max => a.max(b),
                Op::OfCount => x as f64,
                Op::Truncate => return a as u64,
            };
            r.to_bits()
        },
    }
}

fn chars(s: &str) -> Vec<char> {
    s.chars().collect()
}

fn shown(n: f64) -> String {
    fmt_number(n.to_bits(), &format!("{:.10}", n))
}

#[test]
fn numbers_are_tidied() {
    assert_eq!(shown(3.0), "3");
    assert_eq!(shown(-42.0), "-42");
    assert_eq!(shown(0.0), "0");
    assert_eq!(shown(-0.0), "0");
    assert_eq!(shown(0.5), "0.5");
    assert_eq!(shown(1.25), "1.25");
    assert_eq!(shown(0.1 + 0.2), "0.3");
    assert_eq!(shown(1.0 / 3.0), "0.3333333333");
    assert_eq!(shown(999999999999999.0), "999999999999999");
    assert_eq!(shown(1e15), "1000000000000000");
    assert_eq!(shown(f64::NAN), "NaN");
    assert_eq!(shown(f64::INFINITY), "inf");
    assert_eq!(shown(1e-11), "0");
}

#[test]
fn fractions_show_ten_significant_digits() {
    assert_eq!(shown(100000.123456), "100000.1235");
    assert_eq!(shown(-100000.123456), "-100000.1235");
    assert_eq!(shown(1234.5678901234), "1234.56789");
    assert_eq!(shown(100.0 / 3.0), "33.33333333");
    assert_eq!(shown(200.0 / 3.0), "66.66666667");
    assert_eq!(shown(99999999.999), "100000000");
    assert_eq!(shown(9999999999.5), "10000000000");
    assert_eq!(shown(1234567890.5), "1234567891");
    assert_eq!(shown(1234567890.25), "1234567890");
    assert_eq!(shown(12345678904.5), "12345678900");
    assert_eq!(shown(12345678905.5), "12345678910");
    assert_eq!(shown(562949953421312.5), "562949953400000");
    assert_eq!(shown(1.0 / 7.0), "0.1428571429");
    assert_eq!(shown(0.000012345), "0.000012345");
    assert_eq!(shown(1e-11), "0");
    assert_eq!(shown(-1e-11), "-0");
    assert_eq!(shown(12345678901234567.0), "12345678901234568");
    assert_eq!(shown(f64::NEG_INFINITY), "-inf");
    for n in [1.0 / 3.0, 22.0 / 7.0, 98765.4321987, 12345.678901, 0.1, 4503599627370495.5] {
        for m in [n, -n, n * 10.0, n / 1000.0] {
            let digits: String = shown(m).chars().filter(|c| c.is_ascii_digit()).collect();
            assert!(m == m.trunc() || digits.trim_matches('0').len() <= 10, "{}", m);
        }
    }
}

#[test]
fn decimal_texts_are_rounded() {
    let round = |s: &str| round_text(&chars(s)).map(|v| v.into_iter().collect::<String>());
    assert_eq!(round("0.5000000000").as_deref(), Some("0.5000000000"));
    assert_eq!(round("12.3456789012").as_deref(), Some("12.3456789000"));
    assert_eq!(round("-9.99999999999").as_deref(), Some("-10.00000000000"));
    assert_eq!(round("0.0").as_deref(), Some("0.0"));
    assert_eq!(round("007.5").as_deref(), Some("7.5"));
    assert_eq!(round("5.").as_deref(), Some("5."));
    for s in ["", "-", "5", ".5", "-.5", "1.2.3", "1,5", "NaN", "inf", "+1.5", "1.5e3"] {
        assert_eq!(round(s), None);
    }
}

#[test]
fn integers_are_told() {
    for n in [0.0, -0.0, 1.0, -7.0, 1e15, -1e15, 1e300, 4503599627370497.0, f64::MAX] {
        assert!(integer(f64::to_bits(n)));
    }
    for n in [0.5, -1.25, 1e-300, 5e-324, 4503599627370495.5, f64::NAN, f64::INFINITY] {
        assert!(!integer(f64::to_bits(n)));
    }
}

#[test]
fn whole_numbers_are_told() {
    for n in [0.0, 1.0, -1.0, 2.0, 3.0, 1024.0, 123456789.0, -999999999999999.0] {
        assert_eq!(whole_number(f64::to_bits(n)), Some(n as i64));
    }
    for n in [0.5, -0.25, 1e15, -1e15, 1e300, 1e-300, 5e-324, f64::NAN, f64::INFINITY] {
        assert_eq!(whole_number(f64::to_bits(n)), None);
    }
    assert_eq!(whole_number(f64::to_bits(-0.0)), Some(0));
    assert_eq!(whole_number(f64::to_bits(4503599627370496.0)), None);
    assert_eq!(whole_number(f64::to_bits(562949953421312.5)), None);
    assert_eq!(whole_number(f64::to_bits(562949953421313.0)), Some(562949953421313));
}

#[test]
fn numbers_compare_as_floats_do() {
    let all = [
        f64::NEG_INFINITY,
        -2.5,
        -1.0,
        -0.0,
        0.0,
        5e-324,
        1.0,
        7.0,
        f64::INFINITY,
        f64::NAN,
    ];
    for a in all {
        for b in all {
            let expected = a.partial_cmp(&b).map(|o| match o {
                std::cmp::Ordering::Less => Order::Less,
                std::cmp::Ordering::Equal => Order::Equal,
                std::cmp::Ordering::Greater => Order::Greater,
            });
            assert_eq!(order(a.to_bits(), b.to_bits()), expected);
        }
        assert_eq!(nan(a.to_bits()), a.is_nan());
        assert_eq!(zero(a.to_bits()), a == 0.0);
    }
}

#[test]
fn decimal_notation() {
    assert_eq!(decimal_of(0), chars("0"));
    assert_eq!(decimal_of(1907), chars("1907"));
    assert_eq!(decimal_of(u64::MAX), chars("18446744073709551615"));
    assert_eq!(parse_unsigned(&chars("+07"), 100), Some(7));
    assert_eq!(parse_unsigned(&chars("256"), 255), None);
    assert_eq!(parse_unsigned(&chars("255"), 255), Some(255));
    assert_eq!(parse_unsigned(&chars(""), 255), None);
    assert_eq!(parse_unsigned(&chars("+"), 255), None);
    assert_eq!(parse_unsigned(&chars("-1"), 255), None);
    assert_eq!(parse_unsigned(&chars("18446744073709551616"), u64::MAX), None);
    assert_eq!(parse_unsigned(&decimal_of(987654321), u64::MAX), Some(987654321));
}

#[test]
fn values_are_equal_as_floats_are() {
    let number = |n: f64| Value::Number(n.to_bits());
    assert!(number(0.0) == number(-0.0));
    assert!(number(f64::NAN) != number(f64::NAN));
    assert!(number(1.5) == number(1.5));
    assert!(number(1.5) != number(2.5));
    assert!(Value::Text("a".to_string()) == Value::Text("a".to_string()));
    assert!(Value::Text("a".to_string()) != Value::Text("A".to_string()));
    assert!(Value::Text("a".to_string()) != Value::Error("a".to_string()));
    assert!(Value::Error("NUM".to_string()) == Value::Error("NUM".to_string()));
    assert!(Value::Empty == Value::Empty);
    assert!(Value::Empty != number(0.0));
}

#[test]
fn values_are_displayed() {
    let n = numerics();
    assert_eq!(Value::Empty.display(&n), "");
    assert_eq!(Value::Number(2.5f64.to_bits()).display(&n), "2.5");
    assert_eq!(Value::Text("x y".to_string()).display(&n), "x y");
    assert_eq!(Value::Error("DIV/0".to_string()).display(&n), "#DIV/0");
    assert!(Value::Number(0).is_number());
    assert!(!Value::Empty.is_number());
    assert_eq!(Value::default(), Value::Empty);
}
