use compiler::ast::{BinOp, Expr, Stmt, VarType};
use compiler::decimal::{i64_text, usize_text};
use compiler::numparse::{parse_i64, parse_usize, IntErrorKind};
use compiler::reporting::{reporting, Reporting};
use compiler::stats::{is_whitespace, Stats};

#[test]
fn operators_by_name() {
    let names = [
        ("PLUS", "+"),
        ("MINUS", "-"),
        ("TIMES", "*"),
        ("DIVIDE", "/"),
        ("GREATER", ">"),
        ("LESS", "<"),
        ("GREATER_EQUAL", ">="),
        ("LESS_EQUAL", "<="),
        ("CHECK_EQUALS", "=="),
    ];
    for (name, symbol) in names {
        assert_eq!(BinOp::new(name).unwrap().symbol(), symbol);
    }
    assert_eq!(BinOp::new("LESS_EQUALS").unwrap_err(), "Unsupported operator: LESS_EQUALS");
    assert_eq!(BinOp::new("MULTIPLY").unwrap_err(), "Unsupported operator: MULTIPLY");
}

#[test]
fn expressions_by_kind() {
    assert_eq!(Expr::new("IntLiteral", Some("42"), None, None, None).unwrap().to_string(), "42");
    assert_eq!(
        Expr::new("IntLiteral", None, None, None, None).unwrap_err(),
        "IntLiteral requires an integer parameter"
    );
    assert_eq!(
        Expr::new("IntLiteral", Some("4x"), None, None, None).unwrap_err(),
        "Failed to parse integer: invalid digit found in string"
    );
    assert_eq!(
        Expr::new("IntLiteral", Some(""), None, None, None).unwrap_err(),
        "Failed to parse integer: cannot parse integer from empty string"
    );
    assert_eq!(Expr::new("StringLiteral", None, Some("hi"), None, None).unwrap().to_string(), "hi");
    assert_eq!(
        Expr::new("StringLiteral", Some("hi"), None, None, None).unwrap_err(),
        "StringLiteral requires a string parameter"
    );
    assert_eq!(Expr::new("VarRef", None, Some("v"), None, None).unwrap().to_string(), "v");
    assert_eq!(Expr::new("VarRef", None, None, None, None).unwrap_err(), "VarRef requires a variable name");
    assert_eq!(Expr::new("Other", None, None, None, None).unwrap_err(), "Invalid expression type");
}

#[test]
fn an_operation_takes_the_operator_of_its_left_operand() {
    let left = Expr::BinOp(Box::new(Expr::VarRef("a".to_string())), BinOp::Mul, Box::new(Expr::IntLiteral(2)));
    let right = Expr::IntLiteral(3);
    let e = Expr::new("BinOp", None, None, Some(Box::new(left)), Some(Box::new(right))).unwrap();
    assert_eq!(e.to_string(), "((a * 2) * 3)");
    assert_eq!(
        Expr::new("BinOp", None, None, Some(Box::new(Expr::IntLiteral(1))), Some(Box::new(Expr::IntLiteral(2))))
            .unwrap_err(),
        "BinOp requires a BinOp enum as the left operand"
    );
    assert_eq!(Expr::new("BinOp", None, None, None, None).unwrap_err(), "BinOp requires a left operand");
    let l2 = Expr::BinOp(Box::new(Expr::IntLiteral(1)), BinOp::Add, Box::new(Expr::IntLiteral(2)));
    assert_eq!(
        Expr::new("BinOp", None, None, Some(Box::new(l2)), None).unwrap_err(),
        "BinOp requires a right operand"
    );
}

#[test]
fn variable_types_by_name() {
    assert_eq!(VarType::new("integer").unwrap().to_string(), "Int(0)");
    assert_eq!(VarType::new("bool").unwrap().to_string(), "Bool(false)");
    assert_eq!(VarType::new("float").unwrap().to_string(), "Float(0)");
    assert_eq!(VarType::new("string").unwrap().to_string(), "Str()");
    assert_eq!(VarType::new("int[]").unwrap().to_string(), "IntArray([])");
    assert_eq!(VarType::new("char").unwrap_err(), "Unsupported var type: char");
    assert_eq!(VarType::IntArray(vec![1, -2, 3]).to_string(), "IntArray([1, -2, 3])");
}

#[test]
fn blocks_take_statements_and_other_statements_refuse() {
    let mut b = Stmt::Block(vec![]);
    b.push_to_block(Stmt::Return(Expr::VarRef("r".to_string()))).unwrap();
    assert_eq!(b.display(0), vec!["Block([", "  Return(r)", "])"]);
    let mut s = Stmt::StringLiteral("s".to_string());
    assert_eq!(s.push_to_block(Stmt::Block(vec![])).unwrap_err(), "Cannot push to a non-Block statement");
    assert_eq!(s.display(1), vec![" StringLiteral(s)"]);
}

#[test]
fn every_statement_has_its_lines() {
    let assign = Stmt::Assign("x".to_string(), Expr::IntLiteral(1));
    assert_eq!(assign.display(0), vec!["Assign(x, 1)"]);
    let prog = Stmt::Program("p".to_string(), Box::new(Stmt::Block(vec![])));
    assert_eq!(prog.display(0), vec!["p:(", "  Block([", "  ])", ")"]);
    let err = Stmt::Error(Reporting::from("bad".to_string()));
    assert_eq!(err.display(0), vec!["Error(Reporting { error_status: false, warnings: [], errors: [\"bad\"] })"]);
    let iff = Stmt::If(Expr::VarRef("c".to_string()), Box::new(Stmt::Block(vec![])), None);
    assert_eq!(iff.display(0), vec!["If (", "  Condition: c", "  Body: ", "  Block([", "  ])", ")"]);
    let copy = iff.clone();
    assert_eq!(copy.display(0), iff.display(0));
}

#[test]
fn reports_collect_errors_and_warnings() {
    let mut r = Reporting::new();
    r.reportError("first".to_string());
    r.reportWarning("careful".to_string());
    r.reportError("second".to_string());
    assert_eq!(r.errors(), &vec!["first".to_string(), "second".to_string()]);
    assert_eq!(r.warnings(), &vec!["careful".to_string()]);
    assert!(!r.error_status());
    assert_eq!(r.to_string(), "Errors: [\"first\", \"second\"], Warnings: [\"careful\"]");
    let copy = r.clone();
    assert_eq!(copy.to_string(), r.to_string());
}

#[test]
fn messages_are_shown_escaped() {
    let r = Reporting::from("say \"hi\"\n".to_string());
    assert_eq!(r.to_string(), "Errors: [\"say \\\"hi\\\"\\n\"], Warnings: []");
    assert_eq!(
        r.debug_text(),
        "Reporting { error_status: false, warnings: [], errors: [\"say \\\"hi\\\"\\n\"] }"
    );
}

#[test]
fn a_report_from_one_error_is_a_new_report_with_that_error() {
    let mut a = Reporting::new();
    a.reportError("e".to_string());
    assert_eq!(Reporting::from("e".to_string()).to_string(), a.to_string());
}

#[test]
fn the_first_report_form() {
    let mut r = reporting { errorStatus: true };
    let fresh = r.new();
    assert!(!r.errorStatus);
    assert!(!fresh.errorStatus);
    assert_eq!(reporting::reportError("x".to_string()), "reporting error: x");
    assert_eq!(reporting::reportWarning("y".to_string()), "reporting warning: y");
}

#[test]
fn counts_of_a_text() {
    let text: Vec<char> = "hello world\nfoo bar\n".chars().collect();
    let s = Stats::new(&text);
    assert_eq!(s.characters_count(), 20);
    assert_eq!(s.words_count(), 4);
    assert_eq!(s.lines_count(), 2);
    assert_eq!(s.to_string(), "20 4 2");
    let f = Stats::new_counting_first(&text);
    assert_eq!(f.to_string(), "20 5 3");
}

#[test]
fn counts_skip_nul_and_know_unicode_space() {
    let text: Vec<char> = "a\0b\u{3000}c d".chars().collect();
    let s = Stats::new(&text);
    assert_eq!(s.characters_count(), 6);
    assert_eq!(s.words_count(), 2);
    assert_eq!(s.lines_count(), 0);
    assert_eq!(Stats::new(&[]).to_string(), "0 0 0");
    for c in ['\t', '\n', '\u{b}', '\u{c}', '\r', ' ', '\u{85}', '\u{a0}', '\u{2028}', '\u{3000}'] {
        assert_eq!(is_whitespace(c), c.is_whitespace());
    }
    for c in ['a', '\0', '\u{200b}', '_'] {
        assert_eq!(is_whitespace(c), c.is_whitespace());
    }
}

#[test]
fn counts_of_two_pieces_add_up() {
    let a: Vec<char> = "one two".chars().collect();
    let b: Vec<char> = " three\n".chars().collect();
    let whole: Vec<char> = "one two three\n".chars().collect();
    let (sa, sb, sw) = (Stats::new(&a), Stats::new(&b), Stats::new(&whole));
    assert_eq!(sw.characters_count(), sa.characters_count() + sb.characters_count());
    assert_eq!(sw.lines_count(), sa.lines_count() + sb.lines_count());
    assert_eq!(sw.words_count(), sa.words_count() + sb.words_count() + 1);
}

#[test]
fn numbers_in_decimal() {
    assert_eq!(usize_text(0), "0");
    assert_eq!(usize_text(1234567890), "1234567890");
    assert_eq!(i64_text(-7), "-7");
    assert_eq!(i64_text(i64::MIN), "-9223372036854775808");
    assert_eq!(i64_text(i64::MAX), "9223372036854775807");
}

#[test]
fn reading_integers() {
    assert_eq!(parse_i64("-9223372036854775808"), Ok(i64::MIN));
    assert_eq!(parse_i64("+17"), Ok(17));
    assert_eq!(parse_i64("9223372036854775808"), Err(IntErrorKind::PosOverflow));
    assert_eq!(parse_i64("-9223372036854775809"), Err(IntErrorKind::NegOverflow));
    assert_eq!(parse_i64(""), Err(IntErrorKind::Empty));
    assert_eq!(parse_i64("-"), Err(IntErrorKind::InvalidDigit));
    assert_eq!(parse_i64("1 2"), Err(IntErrorKind::InvalidDigit));
    assert_eq!(parse_usize("-1"), Err(IntErrorKind::InvalidDigit));
    assert_eq!(parse_usize("18446744073709551616"), Err(IntErrorKind::PosOverflow));
    assert_eq!(IntErrorKind::NegOverflow.message(), "number too small to fit in target type");
    for s in ["-1", "+17", "x", "", "-", "99999999999999999999", "-99999999999999999999"] {
        assert_eq!(parse_i64(s).ok(), s.parse::<i64>().ok());
    }
}

#[test]
fn decimal_text_reads_back() {
    for v in [0i64, 9, 10, -10, 123456, i64::MIN, i64::MAX] {
        assert_eq!(parse_i64(&i64_text(v)), Ok(v));
    }
    for n in [0usize, 7, 100, usize::MAX] {
        assert_eq!(parse_usize(&usize_text(n)), Ok(n));
    }
}
