use line_calc::parser::{Expr, Parser, ParserError, ParserResult};
use line_calc::tokenizer::{all_spaces, is_number, tokenize, trim, LexError, Token};

fn chars(s: &str) -> Vec<char> {
    s.chars().collect()
}

fn text(cs: &[char]) -> String {
    cs.iter().collect()
}

/// Folds a closed expression tree into a 64-bit floating-point number, the
/// way the surrounding application does.
fn eval(e: &Expr) -> f64 {
    match e {
        Expr::Lit(t) => text(t).parse::<f64>().unwrap(),
        Expr::Neg(a) => -eval(a),
        Expr::Add(a, b) => eval(a) + eval(b),
        Expr::Sub(a, b) => eval(a) - eval(b),
        Expr::Mul(a, b) => eval(a) * eval(b),
        Expr::Div(a, b) => eval(a) / eval(b),
        Expr::Pow(a, b) => eval(a).powf(eval(b)),
    }
}

fn run_line(p: &mut Parser, line: &str) -> Result<ParserResult, ParserError> {
    let toks = tokenize(chars(line)).expect("unexpected lexical error");
    p.set_tokens(toks);
    p.parse_translation_unit()
}

fn eval_line(p: &mut Parser, line: &str) -> f64 {
    match run_line(p, line) {
        Ok(ParserResult::Value(e)) => eval(&e),
        _ => panic!("expected the line to denote a value"),
    }
}

fn lookup(p: &Parser, name: &str) -> f64 {
    match p.get_var_table().get(&chars(name)) {
        Some(e) => eval(&e),
        None => panic!("expected the name to be bound"),
    }
}

#[test]
fn scenario_assign_then_use() {
    let mut p = Parser::new();
    assert!(matches!(run_line(&mut p, "x = 3 + 4"), Ok(ParserResult::VarAssign)));
    assert_eq!(p.get_var_table().len(), 1);
    assert_eq!(lookup(&p, "x"), 7.0);
    assert_eq!(eval_line(&mut p, "x * 2"), 14.0);
}

#[test]
fn scenario_brackets() {
    let mut p = Parser::new();
    assert_eq!(eval_line(&mut p, "(1 + 2) * 3"), 9.0);
}

#[test]
fn scenario_power_left_associative() {
    let mut p = Parser::new();
    assert_eq!(eval_line(&mut p, "2^3^2"), 64.0);
}

#[test]
fn scenario_unbound_variable() {
    let mut p = Parser::new();
    match run_line(&mut p, "y") {
        Err(ParserError::UnboundVariable { name }) => assert_eq!(text(&name), "y"),
        _ => panic!("expected an unbound-variable error"),
    }
    assert_eq!(p.get_var_table().len(), 0);
}

#[test]
fn unary_minus_binds_looser_than_power() {
    let mut p = Parser::new();
    assert_eq!(eval_line(&mut p, "-2^2"), -4.0);
}

#[test]
fn left_associative_sub_and_div() {
    let mut p = Parser::new();
    assert_eq!(eval_line(&mut p, "10 - 3 - 2"), 5.0);
    assert_eq!(eval_line(&mut p, "8 / 4 / 2"), 1.0);
}

#[test]
fn quit_terminates_whatever_the_table_holds() {
    let mut p = Parser::new();
    assert!(matches!(run_line(&mut p, "quit"), Ok(ParserResult::Quit)));
    assert!(matches!(run_line(&mut p, "a = 1"), Ok(ParserResult::VarAssign)));
    assert!(matches!(run_line(&mut p, "quit"), Ok(ParserResult::Quit)));
    assert!(matches!(run_line(&mut p, "  quit  "), Ok(ParserResult::Quit)));
}

#[test]
fn quit_dispatch_reads_only_the_first_token() {
    let mut p = Parser::new();
    assert!(matches!(run_line(&mut p, "quit + 1"), Ok(ParserResult::Quit)));
}

#[test]
fn quit_near_misses_are_variable_names() {
    let toks = tokenize(chars("quit2")).unwrap();
    assert_eq!(toks, vec![Token::VarName(chars("quit2"))]);
    let toks = tokenize(chars("Quit")).unwrap();
    assert_eq!(toks, vec![Token::VarName(chars("Quit"))]);

    let mut p = Parser::new();
    match run_line(&mut p, "quit2") {
        Err(ParserError::UnboundVariable { name }) => assert_eq!(text(&name), "quit2"),
        _ => panic!("quit2 must not terminate"),
    }
    match run_line(&mut p, "Quit") {
        Err(ParserError::UnboundVariable { name }) => assert_eq!(text(&name), "Quit"),
        _ => panic!("Quit must not terminate"),
    }
}

#[test]
fn empty_line_yields_invalid_sentinel() {
    let toks = tokenize(Vec::new()).unwrap();
    assert_eq!(toks, vec![Token::Invalid]);

    let mut p = Parser::new();
    match run_line(&mut p, "") {
        Err(ParserError::Unexpected { got, .. }) => assert_eq!(got, Token::Invalid),
        _ => panic!("an empty line must be rejected"),
    }
}

#[test]
fn blank_line_yields_no_tokens() {
    let toks = tokenize(chars("  \t  ")).unwrap();
    assert_eq!(toks, Vec::<Token>::new());

    let mut p = Parser::new();
    match run_line(&mut p, "  \t  ") {
        Err(ParserError::Unexpected { got, .. }) => assert_eq!(got, Token::Invalid),
        _ => panic!("a blank line must be rejected"),
    }
    assert_eq!(p.get_var_table().len(), 0);
}

#[test]
fn reassignment_overwrites() {
    let mut p = Parser::new();
    assert!(matches!(run_line(&mut p, "x = 1"), Ok(ParserResult::VarAssign)));
    assert!(matches!(run_line(&mut p, "x = 2"), Ok(ParserResult::VarAssign)));
    assert_eq!(p.get_var_table().len(), 1);
    assert_eq!(lookup(&p, "x"), 2.0);
}

#[test]
fn expression_uses_value_bound_at_assignment_time() {
    let mut p = Parser::new();
    assert!(matches!(run_line(&mut p, "x = 3"), Ok(ParserResult::VarAssign)));
    assert!(matches!(run_line(&mut p, "y = x + 1"), Ok(ParserResult::VarAssign)));
    assert!(matches!(run_line(&mut p, "x = 10"), Ok(ParserResult::VarAssign)));
    assert_eq!(eval_line(&mut p, "y"), 4.0);
    assert_eq!(eval_line(&mut p, "x"), 10.0);
}

#[test]
fn malformed_literal_is_a_lexical_error() {
    match tokenize(chars("1.2.3")) {
        Err(LexError { literal }) => assert_eq!(text(&literal), "1.2.3"),
        Ok(_) => panic!("two decimal points must not tokenize"),
    }
    match tokenize(chars("1 + .")) {
        Err(LexError { literal }) => assert_eq!(text(&literal), "."),
        Ok(_) => panic!("a lone decimal point must not tokenize"),
    }
}

#[test]
fn failed_assignment_leaves_table_unchanged() {
    let mut p = Parser::new();
    assert!(run_line(&mut p, "x = )").is_err());
    assert_eq!(p.get_var_table().len(), 0);
    match run_line(&mut p, "x = y") {
        Err(ParserError::UnboundVariable { name }) => assert_eq!(text(&name), "y"),
        _ => panic!("expected an unbound-variable error"),
    }
    assert_eq!(p.get_var_table().len(), 0);
    assert!(matches!(run_line(&mut p, "x = 5"), Ok(ParserResult::VarAssign)));
    assert_eq!(lookup(&p, "x"), 5.0);
}

#[test]
fn decimal_literals() {
    let mut p = Parser::new();
    assert_eq!(eval_line(&mut p, "1.5 + 2.5"), 4.0);
    assert_eq!(eval_line(&mut p, ".5 + 1."), 1.5);
}

#[test]
fn division_follows_float_semantics() {
    let mut p = Parser::new();
    assert!(eval_line(&mut p, "1 / 0").is_infinite());
}

#[test]
fn tokenize_splits_spans_at_symbols() {
    let toks = tokenize(chars("x = 3 + 4")).unwrap();
    assert_eq!(
        toks,
        vec![
            Token::VarName(chars("x")),
            Token::Equals,
            Token::Number(chars("3")),
            Token::Add,
            Token::Number(chars("4")),
        ]
    );
    let toks = tokenize(chars("(1+2)*3/4^5-6")).unwrap();
    assert_eq!(
        toks,
        vec![
            Token::LBracket,
            Token::Number(chars("1")),
            Token::Add,
            Token::Number(chars("2")),
            Token::RBracket,
            Token::Mul,
            Token::Number(chars("3")),
            Token::Div,
            Token::Number(chars("4")),
            Token::Exp,
            Token::Number(chars("5")),
            Token::Sub,
            Token::Number(chars("6")),
        ]
    );
}

#[test]
fn variable_names_keep_inner_spacing() {
    let mut p = Parser::new();
    assert!(matches!(run_line(&mut p, "ab cd = 4"), Ok(ParserResult::VarAssign)));
    assert_eq!(eval_line(&mut p, "ab cd"), 4.0);
}

#[test]
fn trailing_tokens_after_an_expression_are_ignored() {
    let mut p = Parser::new();
    assert_eq!(eval_line(&mut p, "3 + 4 ) 9"), 7.0);
}

#[test]
fn same_type_compares_kinds_only() {
    assert!(Token::Number(chars("1")).same_type(&Token::Number(chars("2"))));
    assert!(Token::VarName(chars("a")).same_type(&Token::VarName(chars("b"))));
    assert!(!Token::VarName(chars("1")).same_type(&Token::Number(chars("1"))));
    assert!(Token::Equals.same_type(&Token::Equals));
    assert!(!Token::Add.same_type(&Token::Sub));
    assert!(Token::Invalid.same_type(&Token::Invalid));
}

#[test]
fn trim_removes_outer_whitespace_only() {
    let s = chars("  a b\t");
    assert_eq!(trim(&s), &chars("a b")[..]);
    let s = chars("q");
    assert_eq!(trim(&s), &chars("q")[..]);
}

#[test]
fn is_number_accepts_digits_and_points() {
    assert!(is_number(&chars("120.5")));
    assert!(is_number(&chars("...")));
    assert!(is_number(&chars("")));
    assert!(!is_number(&chars("12a")));
    assert!(!is_number(&chars("-1")));
}

#[test]
fn all_spaces_on_blank_spans_only() {
    assert!(all_spaces(&chars("")));
    assert!(all_spaces(&chars(" \t ")));
    assert!(!all_spaces(&chars(" a ")));
}

#[test]
fn unicode_whitespace_counts_as_whitespace() {
    assert!(all_spaces(&chars("\u{a0}\u{2003}\u{3000}")));
    let s = chars("\u{a0}a\u{3000}");
    assert_eq!(trim(&s), &chars("a")[..]);

    let toks = tokenize(chars("\u{a0}quit\u{2009}")).unwrap();
    assert_eq!(toks, vec![Token::Quit]);
    let toks = tokenize(chars("\u{2028}\u{85}")).unwrap();
    assert_eq!(toks, Vec::<Token>::new());

    let mut p = Parser::new();
    assert!(matches!(run_line(&mut p, "x\u{a0}= 1"), Ok(ParserResult::VarAssign)));
    assert_eq!(lookup(&p, "x"), 1.0);
    assert_eq!(eval_line(&mut p, "x"), 1.0);
}

#[test]
fn grammar_errors_name_the_expected_kinds() {
    let mut p = Parser::new();
    match run_line(&mut p, "(1") {
        Err(ParserError::Unexpected { got, expected }) => {
            assert_eq!(got, Token::Invalid);
            assert_eq!(expected, vec![Token::RBracket]);
        },
        _ => panic!("an unclosed bracket must be rejected"),
    }
    match run_line(&mut p, "1 +") {
        Err(ParserError::Unexpected { got, expected }) => {
            assert_eq!(got, Token::Invalid);
            assert_eq!(
                expected,
                vec![Token::VarName(Vec::new()), Token::Number(Vec::new()), Token::LBracket]
            );
        },
        _ => panic!("a dangling operator must be rejected"),
    }
    match run_line(&mut p, "= 1") {
        Err(ParserError::Unexpected { got, .. }) => assert_eq!(got, Token::Equals),
        _ => panic!("a leading equals sign must be rejected"),
    }
}
