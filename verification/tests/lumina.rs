use lumina::ast::{Expression, LiteralValue, Statement};
use lumina::lexer::{Lexer, tokenize};
use lumina::parser::{Construct, Expected, ParseError, Parser};
use lumina::render::render;
use lumina::token::{
    BitwiseOperator, ComparisonOperator, LexerError, LogicalOperator, MathOperator, Operator,
    Token,
};

fn lex_ok(src: &str) -> Vec<Token> {
    tokenize(src).expect("tokenize should succeed")
}

fn parse_ok(src: &str) -> Vec<Statement> {
    let mut p = Parser::new(lex_ok(src));
    p.parse().expect("parse should succeed")
}

fn parse_err(src: &str) -> ParseError {
    let mut p = Parser::new(lex_ok(src));
    p.parse().expect_err("parse should fail")
}

fn ident(name: &str) -> Expression {
    Expression::Identifier(name.to_string())
}

fn num(text: &str) -> Expression {
    Expression::LiteralValue(LiteralValue::Number(text.to_string()))
}

#[test]
fn two_character_operators_tokenize_to_one_token() {
    let cases: Vec<(&str, Token)> = vec![
        ("==", Token::ComparisonOperatorToken(ComparisonOperator::Equals)),
        ("!=", Token::ComparisonOperatorToken(ComparisonOperator::NotEquals)),
        ("<=", Token::ComparisonOperatorToken(ComparisonOperator::LessThanEq)),
        (">=", Token::ComparisonOperatorToken(ComparisonOperator::GreaterThanEq)),
        ("&&", Token::LogicalOperatorToken(LogicalOperator::And)),
        ("||", Token::LogicalOperatorToken(LogicalOperator::Or)),
        ("<<", Token::BitwiseOperatorToken(BitwiseOperator::LeftShift)),
        (">>", Token::BitwiseOperatorToken(BitwiseOperator::RightShift)),
        (":=", Token::OperatorToken(Operator::Define)),
    ];
    for (src, tok) in cases {
        assert_eq!(lex_ok(src), vec![tok, Token::EndOfInput], "source {:?}", src);
    }
}

#[test]
fn single_character_prefixes_tokenize_to_their_category() {
    let cases: Vec<(&str, Token)> = vec![
        ("=", Token::OperatorToken(Operator::Equals)),
        ("&", Token::BitwiseOperatorToken(BitwiseOperator::And)),
        ("|", Token::BitwiseOperatorToken(BitwiseOperator::Or)),
        ("^", Token::BitwiseOperatorToken(BitwiseOperator::Xor)),
        ("!", Token::LogicalOperatorToken(LogicalOperator::Not)),
        ("<", Token::ComparisonOperatorToken(ComparisonOperator::LessThan)),
        (">", Token::ComparisonOperatorToken(ComparisonOperator::GreaterThan)),
    ];
    for (src, tok) in cases {
        assert_eq!(lex_ok(src), vec![tok, Token::EndOfInput], "source {:?}", src);
    }
}

#[test]
fn render_round_trip_reproduces_the_token_stream() {
    let sources = vec![
        "x = 10",
        "if x > 5 { y = x * 2 } elif x < 2 { y = 0 } else { y = 1 }",
        "fn add(a, b) { return a + b }",
        "/* a comment */ print foo(1, 2.5) && bar | baz",
        "while i <= 10 { i = i + 1 }",
        "for v in items { total = total + v }",
        "double x := x * 2",
        "a << 2 ^ b >> 1",
    ];
    for src in sources {
        let toks = lex_ok(src);
        let spaced = render(&toks);
        let again = lex_ok(&spaced);
        assert_eq!(toks, again, "round trip through {:?}", spaced);
    }
}

#[test]
fn render_produces_the_canonical_spaced_form() {
    // One space after each token, the end-of-input marker included.
    let toks = lex_ok("x=10");
    assert_eq!(render(&toks), "x = 10  ");
}

#[test]
fn comment_bodies_are_kept_verbatim() {
    assert_eq!(
        lex_ok("/* body * text */"),
        vec![Token::Comment(" body * text ".to_string()), Token::EndOfInput],
    );
    assert_eq!(
        lex_ok("/**/"),
        vec![Token::Comment(String::new()), Token::EndOfInput],
    );
}

#[test]
fn unterminated_comment_fails() {
    assert_eq!(
        tokenize("/* unterminated"),
        Err(LexerError::UnterminatedComment),
    );
}

#[test]
fn numbers_scan_with_at_most_one_decimal_point() {
    let toks = lex_ok("10");
    assert_eq!(toks, vec![Token::Number("10".to_string()), Token::EndOfInput]);
    if let Token::Number(text) = &toks[0] {
        assert_eq!(text.parse::<f64>().unwrap(), 10.0);
    }
    let toks = lex_ok("2.5");
    assert_eq!(toks, vec![Token::Number("2.5".to_string()), Token::EndOfInput]);
    if let Token::Number(text) = &toks[0] {
        assert_eq!(text.parse::<f64>().unwrap(), 2.5);
    }
}

#[test]
fn second_decimal_point_ends_the_number_and_the_stray_dot_fails() {
    // "1.2.3" scans "1.2" as one number; the stray "." matches no rule and
    // is reported as an unexpected character at its position.
    assert_eq!(
        tokenize("1.2.3"),
        Err(LexerError::UnexpectedCharacter('.', 3)),
    );
}

#[test]
fn spellings_outside_the_operator_tables_are_errors_not_silent_drops() {
    assert_eq!(tokenize(":"), Err(LexerError::UnexpectedCharacter(':', 0)));
    assert_eq!(tokenize("a ** b"), Err(LexerError::UnexpectedCharacter('*', 3)));
    assert_eq!(tokenize("a // b"), Err(LexerError::UnexpectedCharacter('/', 3)));
    assert_eq!(tokenize("1 @ 2"), Err(LexerError::UnexpectedCharacter('@', 2)));
}

#[test]
fn keywords_are_exact_matches_only() {
    assert_eq!(
        lex_ok("if iff"),
        vec![
            Token::Keyword("if".to_string()),
            Token::Identifier("iff".to_string()),
            Token::EndOfInput,
        ],
    );
}

#[test]
fn operator_tables_classify_raw_lexemes() {
    assert_eq!(MathOperator::from_str("+"), Some(MathOperator::Add));
    assert_eq!(MathOperator::from_str("%"), Some(MathOperator::Modulus));
    assert_eq!(MathOperator::from_str("**"), None);
    assert_eq!(LogicalOperator::from_str("&&"), Some(LogicalOperator::And));
    assert_eq!(LogicalOperator::from_str("^^"), Some(LogicalOperator::Xor));
    assert_eq!(LogicalOperator::from_str("^"), None);
    assert_eq!(BitwiseOperator::from_str("^"), Some(BitwiseOperator::Xor));
    assert_eq!(BitwiseOperator::from_str("<<"), Some(BitwiseOperator::LeftShift));
    assert_eq!(ComparisonOperator::from_str("=="), Some(ComparisonOperator::Equals));
    assert_eq!(ComparisonOperator::from_str("="), None);
    assert_eq!(Operator::from_str("="), Some(Operator::Equals));
    assert_eq!(Operator::from_str(":="), Some(Operator::Define));
    assert_eq!(Operator::from_str(":"), None);
}

#[test]
fn assignment_parses_to_an_assignment_node() {
    let prog = parse_ok("x = 10");
    assert_eq!(
        prog,
        vec![Statement::Expression(Expression::Assignment(
            Box::new(ident("x")),
            Box::new(num("10")),
        ))],
    );
}

#[test]
fn if_statement_parses_to_a_flat_if_else_node() {
    let prog = parse_ok("if x > 5 { y = x * 2 }");
    let cond = Expression::ComparisonOp(
        Box::new(ident("x")),
        ComparisonOperator::GreaterThan,
        Box::new(num("5")),
    );
    let body = vec![Statement::Expression(Expression::Assignment(
        Box::new(ident("y")),
        Box::new(Expression::MathOp(
            Box::new(ident("x")),
            MathOperator::Multiply,
            Box::new(num("2")),
        )),
    ))];
    assert_eq!(
        prog,
        vec![Statement::Expression(Expression::IfElse(
            Box::new(cond),
            body,
            vec![],
            None,
        ))],
    );
}

#[test]
fn elif_and_else_branches_are_collected_in_order() {
    let prog = parse_ok("if a { x = 1 } elif b { x = 2 } else { x = 3 }");
    match &prog[0] {
        Statement::Expression(Expression::IfElse(cond, body, elifs, els)) => {
            assert_eq!(**cond, ident("a"));
            assert_eq!(body.len(), 1);
            assert_eq!(elifs.len(), 1);
            assert_eq!(*elifs[0].0, ident("b"));
            assert_eq!(elifs[0].1.len(), 1);
            assert_eq!(els.as_ref().unwrap().len(), 1);
        },
        other => panic!("unexpected node {:?}", other),
    }
}

#[test]
fn function_definition_parses_name_parameters_and_body() {
    let prog = parse_ok("fn add(a, b) { return a + b }");
    assert_eq!(
        prog,
        vec![Statement::FunctionDefinition {
            name: "add".to_string(),
            parameters: vec!["a".to_string(), "b".to_string()],
            body: vec![Statement::Return(Box::new(Some(Expression::MathOp(
                Box::new(ident("a")),
                MathOperator::Add,
                Box::new(ident("b")),
            ))))],
        }],
    );
}

#[test]
fn define_shorthand_makes_a_single_expression_function() {
    let prog = parse_ok("double x := x * 2");
    assert_eq!(
        prog,
        vec![Statement::FunctionDefinition {
            name: "double".to_string(),
            parameters: vec!["x".to_string()],
            body: vec![Statement::Return(Box::new(Some(Expression::MathOp(
                Box::new(ident("x")),
                MathOperator::Multiply,
                Box::new(num("2")),
            ))))],
        }],
    );
}

#[test]
fn define_shorthand_with_no_parameters() {
    let prog = parse_ok("answer := 42");
    assert_eq!(
        prog,
        vec![Statement::FunctionDefinition {
            name: "answer".to_string(),
            parameters: vec![],
            body: vec![Statement::Return(Box::new(Some(num("42"))))],
        }],
    );
}

#[test]
fn comparison_does_not_chain() {
    // `a < b` is consumed as one comparison; the trailing `< c` cannot
    // start a statement, so the top-level loop fails instead of hanging.
    let err = parse_err("a < b < c");
    assert_eq!(
        err,
        ParseError::UnexpectedToken {
            expected: Expected::Expression,
            found: Token::ComparisonOperatorToken(ComparisonOperator::LessThan),
            position: 3,
        },
    );
}

#[test]
fn malformed_block_fails_with_a_position() {
    // `{ x = ` tokenizes to `{`, `x`, `=`, end-of-input; the parse fails
    // deterministically at the missing right-hand expression.
    let err = parse_err("{ x = ");
    assert_eq!(
        err,
        ParseError::UnexpectedToken {
            expected: Expected::Expression,
            found: Token::EndOfInput,
            position: 3,
        },
    );
}

#[test]
fn print_wraps_its_expression_as_a_builtin_call() {
    let prog = parse_ok("print x + 1");
    assert_eq!(
        prog,
        vec![Statement::Expression(Expression::FunctionCall(
            "print".to_string(),
            vec![Expression::MathOp(
                Box::new(ident("x")),
                MathOperator::Add,
                Box::new(num("1")),
            )],
        ))],
    );
}

#[test]
fn while_and_for_statements_parse() {
    let prog = parse_ok("while i < 3 { i = i + 1 }");
    assert!(matches!(
        &prog[0],
        Statement::Expression(Expression::While(_, body)) if body.len() == 1
    ));
    let prog = parse_ok("for v in items { print v }");
    match &prog[0] {
        Statement::Expression(Expression::For(var, iter, body)) => {
            assert_eq!(var, "v");
            assert_eq!(**iter, ident("items"));
            assert_eq!(body.len(), 1);
        },
        other => panic!("unexpected node {:?}", other),
    }
}

#[test]
fn function_calls_parse_with_and_without_arguments() {
    let prog = parse_ok("f()");
    assert_eq!(
        prog,
        vec![Statement::Expression(Expression::FunctionCall(
            "f".to_string(),
            vec![],
        ))],
    );
    let prog = parse_ok("f(1, g(2), 3)");
    match &prog[0] {
        Statement::Expression(Expression::FunctionCall(name, args)) => {
            assert_eq!(name, "f");
            assert_eq!(args.len(), 3);
            assert_eq!(args[1], Expression::FunctionCall("g".to_string(), vec![num("2")]));
        },
        other => panic!("unexpected node {:?}", other),
    }
}

#[test]
fn grouping_binds_tighter_than_math() {
    let prog = parse_ok("(1 + 2) * 3");
    assert_eq!(
        prog,
        vec![Statement::Expression(Expression::MathOp(
            Box::new(Expression::Grouping(Box::new(Expression::MathOp(
                Box::new(num("1")),
                MathOperator::Add,
                Box::new(num("2")),
            )))),
            MathOperator::Multiply,
            Box::new(num("3")),
        ))],
    );
}

#[test]
fn precedence_orders_logical_below_bitwise_below_comparison_below_math() {
    let prog = parse_ok("a + 1 < b && c");
    match &prog[0] {
        Statement::Expression(Expression::LogicalOp(lhs, op, rhs)) => {
            assert_eq!(*op, LogicalOperator::And);
            assert_eq!(**rhs, ident("c"));
            match &**lhs {
                Expression::ComparisonOp(l, cop, r) => {
                    assert_eq!(*cop, ComparisonOperator::LessThan);
                    assert_eq!(**r, ident("b"));
                    assert!(matches!(&**l, Expression::MathOp(_, MathOperator::Add, _)));
                },
                other => panic!("unexpected lhs {:?}", other),
            }
        },
        other => panic!("unexpected node {:?}", other),
    }
}

#[test]
fn comments_pass_through_as_statements() {
    let prog = parse_ok("/* note */ x = 1");
    assert_eq!(prog.len(), 2);
    assert_eq!(prog[0], Statement::Comment(" note ".to_string()));
}

#[test]
fn return_without_a_following_expression_is_bare() {
    let prog = parse_ok("fn f() { return }");
    assert_eq!(
        prog,
        vec![Statement::FunctionDefinition {
            name: "f".to_string(),
            parameters: vec![],
            body: vec![Statement::Return(Box::new(None))],
        }],
    );
}

#[test]
fn missing_function_name_is_an_incomplete_construct() {
    let err = parse_err("fn (x) { return }");
    assert_eq!(
        err,
        ParseError::IncompleteConstruct {
            construct: Construct::FunctionDefinition,
            position: 1,
        },
    );
}

#[test]
fn missing_for_variable_is_an_incomplete_construct() {
    let err = parse_err("for 5 in y { }");
    assert_eq!(
        err,
        ParseError::IncompleteConstruct { construct: Construct::ForLoop, position: 1 },
    );
}

#[test]
fn missing_in_keyword_is_reported() {
    let err = parse_err("for x of y { }");
    assert_eq!(
        err,
        ParseError::UnexpectedToken {
            expected: Expected::KeywordIn,
            found: Token::Identifier("of".to_string()),
            position: 2,
        },
    );
}

#[test]
fn missing_parameter_list_is_reported() {
    let err = parse_err("fn f x { }");
    assert_eq!(
        err,
        ParseError::UnexpectedToken {
            expected: Expected::LeftParen,
            found: Token::Identifier("x".to_string()),
            position: 2,
        },
    );
}

#[test]
fn missing_closing_paren_is_reported() {
    let err = parse_err("f(1 2");
    assert_eq!(
        err,
        ParseError::UnexpectedToken {
            expected: Expected::RightParen,
            found: Token::Number("2".to_string()),
            position: 3,
        },
    );
}

#[test]
fn stray_keyword_cannot_start_a_statement() {
    let err = parse_err("else { }");
    assert_eq!(
        err,
        ParseError::UnexpectedToken {
            expected: Expected::Statement,
            found: Token::Keyword("else".to_string()),
            position: 0,
        },
    );
}

#[test]
fn missing_block_is_reported() {
    let err = parse_err("while 1 2");
    assert_eq!(
        err,
        ParseError::UnexpectedToken {
            expected: Expected::LeftBrace,
            found: Token::Number("2".to_string()),
            position: 2,
        },
    );
}

#[test]
fn lexer_struct_reports_errors_at_their_position() {
    let mut lx = Lexer::new("ab ?");
    assert_eq!(lx.tokenize(), Err(LexerError::UnexpectedCharacter('?', 3)));
}

#[test]
fn doubled_caret_scans_as_two_bitwise_xor_tokens() {
    // `^^` is no two-character pairing, so each `^` resolves alone to the
    // bitwise family; the logical `Xor` kind is reachable only through
    // the conversion table, never from the tokenizer.
    assert_eq!(
        lex_ok("a ^^ b"),
        vec![
            Token::Identifier("a".to_string()),
            Token::BitwiseOperatorToken(BitwiseOperator::Xor),
            Token::BitwiseOperatorToken(BitwiseOperator::Xor),
            Token::Identifier("b".to_string()),
            Token::EndOfInput,
        ],
    );
}

#[test]
fn empty_and_whitespace_input_yield_only_the_end_marker() {
    assert_eq!(lex_ok(""), vec![Token::EndOfInput]);
    assert_eq!(lex_ok(" \t\r\n "), vec![Token::EndOfInput]);
    let mut p = Parser::new(lex_ok(""));
    assert_eq!(p.parse(), Ok(vec![]));
}

#[test]
fn nested_blocks_parse_as_block_statements() {
    let prog = parse_ok("{ { x = 1 } }");
    match &prog[0] {
        Statement::Block(items) => {
            assert!(matches!(&items[0], Statement::Block(inner) if inner.len() == 1));
        },
        other => panic!("unexpected node {:?}", other),
    }
}
