use sayjp::numbers::{is_float_literal_exec, parse_i32};

fn chars(s: &str) -> Vec<char> {
    s.chars().collect()
}

const SAMPLES: &[&str] = &[
    "", "0", "7", "-3", "+12", "-", "+", "--1", "1.", ".5", ".", "1.5", "1e5", "1E-3", "1e", "1e+",
    "e5", ".e1", "1.e2", ".5e+7", "inf", "INF", "-Infinity", "nan", "NaN", "+nAn", "infin", "in",
    " 1", "1 ", "1_0", "0x10", "１", "2147483647", "2147483648", "-2147483648", "-2147483649",
    "00000000000000000012", "1.2.3", "1e2e3", "99999999999999999999999999999999999999999",
];

#[test]
fn i32_parsing_agrees_with_std() {
    for s in SAMPLES {
        assert_eq!(parse_i32(&chars(s)), s.parse::<i32>().ok(), "input {:?}", s);
    }
}

#[test]
fn float_syntax_agrees_with_std() {
    for s in SAMPLES {
        assert_eq!(
            is_float_literal_exec(&chars(s)),
            s.parse::<f32>().is_ok(),
            "input {:?}",
            s
        );
    }
}

#[test]
fn i32_extremes() {
    assert_eq!(parse_i32(&chars("-2147483648")), Some(i32::MIN));
    assert_eq!(parse_i32(&chars("2147483647")), Some(i32::MAX));
    assert_eq!(parse_i32(&chars("2147483648")), None);
}
