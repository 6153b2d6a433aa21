use minicalc::parser::{Parser, ParserError};
use minicalc::syntax_tree::{BinOpKind, CompilationUnit, Expression, Statement};
use minicalc::token::{Token, TokenKind};

fn float_literal(text: &str) -> Option<u64> {
    text.parse::<f64>().ok().map(f64::to_bits)
}

fn parse(text: &str) -> Result<CompilationUnit, ParserError> {
    Parser::new(text.to_string(), float_literal).parse()
}

fn token(kind: TokenKind, text: &str) -> Token {
    Token { kind, text: text.to_string() }
}

fn parse_tokens(tokens: Vec<Token>) -> Result<CompilationUnit, ParserError> {
    Parser::from_tokens(tokens, float_literal).parse()
}

fn number(value: f64) -> Expression {
    Expression::F64(value.to_bits())
}

fn name(text: &str) -> Expression {
    Expression::Identifier(text.to_string())
}

fn binary(kind: BinOpKind, left: Expression, right: Expression) -> Expression {
    Expression::BinOp(kind, Box::new(left), Box::new(right))
}

fn assignment(target: &str, value: Expression) -> Expression {
    Expression::Assignment(target.to_string(), Box::new(value))
}

fn expression(expression: Expression) -> Result<CompilationUnit, ParserError> {
    Ok(CompilationUnit { statement: Statement::ExpressionStatement(expression) })
}

fn declaration(target: &str, value: Expression) -> Result<CompilationUnit, ParserError> {
    Ok(CompilationUnit {
        statement: Statement::VariableDeclaration(target.to_string(), Box::new(value)),
    })
}

#[test]
fn a_number_literal() {
    assert_eq!(parse("42"), expression(number(42.0)));
}

#[test]
fn a_number_literal_has_the_value_of_its_digits() {
    assert_eq!(parse("0"), expression(Expression::F64(0)));
    assert_eq!(parse("1"), expression(Expression::F64(0x3ff0_0000_0000_0000)));
    assert_eq!(parse("007"), expression(number(7.0)));
    assert_eq!(parse("9007199254740993"), expression(number(9007199254740992.0)));
}

#[test]
fn a_number_literal_too_large_for_a_float_is_infinite() {
    let digits = "9".repeat(400);
    assert_eq!(parse(&digits), expression(number(f64::INFINITY)));
}

#[test]
fn boolean_literals() {
    assert_eq!(parse("true"), expression(Expression::Bool(true)));
    assert_eq!(parse("false"), expression(Expression::Bool(false)));
}

#[test]
fn a_word_parses_as_an_identifier() {
    assert_eq!(parse("abc"), expression(name("abc")));
}

#[test]
fn whitespace_is_not_significant() {
    assert_eq!(parse("  1\t+\n2  "), parse("1+2"));
    assert_eq!(parse("1+2"), expression(binary(BinOpKind::Add, number(1.0), number(2.0))));
}

#[test]
fn multiplication_binds_tighter_than_addition() {
    assert_eq!(
        parse("2 + 3 * 4"),
        expression(binary(
            BinOpKind::Add,
            number(2.0),
            binary(BinOpKind::Mul, number(3.0), number(4.0))
        ))
    );
    assert_eq!(
        parse("2 * 3 + 4"),
        expression(binary(
            BinOpKind::Add,
            binary(BinOpKind::Mul, number(2.0), number(3.0)),
            number(4.0)
        ))
    );
}

#[test]
fn parentheses_group() {
    assert_eq!(
        parse("(2 + 3) * 4"),
        expression(binary(
            BinOpKind::Mul,
            binary(BinOpKind::Add, number(2.0), number(3.0)),
            number(4.0)
        ))
    );
    assert_eq!(parse("((7))"), expression(number(7.0)));
}

#[test]
fn operators_of_one_tier_group_to_the_left() {
    assert_eq!(
        parse("1 - 2 + 3"),
        expression(binary(
            BinOpKind::Add,
            binary(BinOpKind::Sub, number(1.0), number(2.0)),
            number(3.0)
        ))
    );
    assert_eq!(
        parse("8 / 4 / 2"),
        expression(binary(
            BinOpKind::Div,
            binary(BinOpKind::Div, number(8.0), number(4.0)),
            number(2.0)
        ))
    );
}

#[test]
fn logical_operators_have_the_highest_binding_powers() {
    assert_eq!(
        parse("a || b && c"),
        expression(binary(
            BinOpKind::LogicalAnd,
            binary(BinOpKind::LogicalOr, name("a"), name("b")),
            name("c")
        ))
    );
    assert_eq!(
        parse("a && b || c"),
        expression(binary(
            BinOpKind::LogicalAnd,
            name("a"),
            binary(BinOpKind::LogicalOr, name("b"), name("c"))
        ))
    );
    assert_eq!(
        parse("1 + a && b"),
        expression(binary(
            BinOpKind::Add,
            number(1.0),
            binary(BinOpKind::LogicalAnd, name("a"), name("b"))
        ))
    );
}

#[test]
fn parentheses_reset_the_binding_power() {
    assert_eq!(
        parse("2 * (3 + 4 * 5)"),
        expression(binary(
            BinOpKind::Mul,
            number(2.0),
            binary(
                BinOpKind::Add,
                number(3.0),
                binary(BinOpKind::Mul, number(4.0), number(5.0))
            )
        ))
    );
}

#[test]
fn a_trailing_operator_is_an_unexpected_token() {
    assert_eq!(parse("1 +"), Err(ParserError::UnexpectedToken));
}

#[test]
fn empty_input_is_an_unexpected_token() {
    assert_eq!(parse(""), Err(ParserError::UnexpectedToken));
    assert_eq!(parse("   "), Err(ParserError::UnexpectedToken));
}

#[test]
fn a_leading_operator_is_an_unexpected_token() {
    assert_eq!(parse("* 2"), Err(ParserError::UnexpectedToken));
    assert_eq!(parse("- 2"), Err(ParserError::UnexpectedToken));
}

#[test]
fn two_operands_in_a_row_are_an_unexpected_token() {
    assert_eq!(parse("1 2"), Err(ParserError::UnexpectedToken));
    assert_eq!(parse("a true"), Err(ParserError::UnexpectedToken));
    assert_eq!(parse("1 (2)"), Err(ParserError::UnexpectedToken));
}

#[test]
fn unbalanced_parentheses_are_an_unexpected_token() {
    assert_eq!(parse("(1 + 2"), Err(ParserError::UnexpectedToken));
    assert_eq!(parse("1 + 2)"), Err(ParserError::UnexpectedToken));
    assert_eq!(parse("()"), Err(ParserError::UnexpectedToken));
}

#[test]
fn a_bad_token_is_an_unexpected_token() {
    assert_eq!(parse("#"), Err(ParserError::UnexpectedToken));
    assert_eq!(parse("1 # 2"), Err(ParserError::UnexpectedToken));
    assert_eq!(parse("1 | 2"), Err(ParserError::UnexpectedToken));
}

#[test]
fn source_text_with_an_equals_sign_does_not_parse() {
    assert_eq!(parse("a = 1"), Err(ParserError::UnexpectedToken));
    assert_eq!(parse("let x = 1"), Err(ParserError::UnexpectedToken));
}

#[test]
fn a_literal_that_is_no_number_is_a_float_literal_parse_error() {
    assert_eq!(parse("½"), Err(ParserError::FloatLiteralParse));
    assert_eq!(parse("١٢٣"), Err(ParserError::FloatLiteralParse));
    assert_eq!(parse("1 + Ⅷ"), Err(ParserError::FloatLiteralParse));
}

#[test]
fn the_first_error_is_the_one_reported() {
    assert_eq!(parse("½ +"), Err(ParserError::FloatLiteralParse));
    assert_eq!(parse("+ ½"), Err(ParserError::UnexpectedToken));
    assert_eq!(parse("1 2 ½"), Err(ParserError::UnexpectedToken));
}

#[test]
fn an_assignment_from_tokens() {
    let tokens = vec![
        token(TokenKind::Identifier, "a"),
        token(TokenKind::Equals, "="),
        token(TokenKind::FloatLiteral, "1"),
        token(TokenKind::EndOfFile, ""),
    ];
    assert_eq!(parse_tokens(tokens), expression(assignment("a", number(1.0))));
}

#[test]
fn assignment_groups_to_the_right() {
    let tokens = vec![
        token(TokenKind::Identifier, "a"),
        token(TokenKind::Equals, "="),
        token(TokenKind::Identifier, "b"),
        token(TokenKind::Equals, "="),
        token(TokenKind::FloatLiteral, "1"),
        token(TokenKind::Plus, "+"),
        token(TokenKind::FloatLiteral, "2"),
        token(TokenKind::EndOfFile, ""),
    ];
    assert_eq!(
        parse_tokens(tokens),
        expression(assignment(
            "a",
            assignment("b", binary(BinOpKind::Add, number(1.0), number(2.0)))
        ))
    );
}

#[test]
fn an_assignment_is_no_operand() {
    let tokens = vec![
        token(TokenKind::FloatLiteral, "1"),
        token(TokenKind::Plus, "+"),
        token(TokenKind::Identifier, "a"),
        token(TokenKind::Equals, "="),
        token(TokenKind::FloatLiteral, "2"),
    ];
    assert_eq!(parse_tokens(tokens), Err(ParserError::UnexpectedToken));
    let tokens = vec![
        token(TokenKind::LeftParenthesis, "("),
        token(TokenKind::Identifier, "a"),
        token(TokenKind::Equals, "="),
        token(TokenKind::FloatLiteral, "2"),
        token(TokenKind::RightParenthesis, ")"),
    ];
    assert_eq!(parse_tokens(tokens), Err(ParserError::UnexpectedToken));
}

#[test]
fn a_declaration_from_tokens() {
    let tokens = vec![
        token(TokenKind::Let, "let"),
        token(TokenKind::Whitespace, " "),
        token(TokenKind::Identifier, "x"),
        token(TokenKind::Equals, "="),
        token(TokenKind::FloatLiteral, "1"),
        token(TokenKind::Asterisk, "*"),
        token(TokenKind::Identifier, "y"),
    ];
    assert_eq!(
        parse_tokens(tokens),
        declaration("x", binary(BinOpKind::Mul, number(1.0), name("y")))
    );
}

#[test]
fn the_initializer_of_a_declaration_may_assign() {
    let tokens = vec![
        token(TokenKind::Let, "let"),
        token(TokenKind::Identifier, "x"),
        token(TokenKind::Equals, "="),
        token(TokenKind::Identifier, "y"),
        token(TokenKind::Equals, "="),
        token(TokenKind::True, "true"),
    ];
    assert_eq!(
        parse_tokens(tokens),
        declaration("x", assignment("y", Expression::Bool(true)))
    );
}

#[test]
fn a_declaration_needs_a_name_an_equals_sign_and_an_expression() {
    let with = |rest: Vec<Token>| {
        let mut tokens = vec![token(TokenKind::Let, "let")];
        tokens.extend(rest);
        parse_tokens(tokens)
    };
    assert_eq!(with(vec![]), Err(ParserError::UnexpectedToken));
    assert_eq!(with(vec![token(TokenKind::FloatLiteral, "1")]), Err(ParserError::UnexpectedToken));
    assert_eq!(with(vec![token(TokenKind::Identifier, "x")]), Err(ParserError::UnexpectedToken));
    assert_eq!(
        with(vec![token(TokenKind::Identifier, "x"), token(TokenKind::FloatLiteral, "1")]),
        Err(ParserError::UnexpectedToken)
    );
    assert_eq!(
        with(vec![token(TokenKind::Identifier, "x"), token(TokenKind::Equals, "=")]),
        Err(ParserError::UnexpectedToken)
    );
    assert_eq!(
        with(vec![
            token(TokenKind::Identifier, "x"),
            token(TokenKind::Equals, "="),
            token(TokenKind::FloatLiteral, "½")
        ]),
        Err(ParserError::FloatLiteralParse)
    );
}

#[test]
fn let_is_no_expression() {
    assert_eq!(parse("1 + let"), Err(ParserError::UnexpectedToken));
    assert_eq!(parse("(let)"), Err(ParserError::UnexpectedToken));
}

#[test]
fn tokens_behind_the_first_end_of_file_are_dropped() {
    let tokens = vec![
        token(TokenKind::FloatLiteral, "1"),
        token(TokenKind::EndOfFile, ""),
        token(TokenKind::Plus, "+"),
    ];
    assert_eq!(parse_tokens(tokens), expression(number(1.0)));
}

#[test]
fn tokens_without_an_end_of_file_get_one() {
    assert_eq!(parse_tokens(vec![token(TokenKind::True, "true")]), expression(Expression::Bool(true)));
    assert_eq!(parse_tokens(vec![]), Err(ParserError::UnexpectedToken));
}

#[test]
fn the_value_of_a_literal_is_what_the_given_function_returns() {
    let mut parser = Parser::new("1 + 2".to_string(), |text: &str| {
        Some(if text == "1" { 111 } else { 222 })
    });
    assert_eq!(
        parser.parse(),
        expression(binary(BinOpKind::Add, Expression::F64(111), Expression::F64(222)))
    );
    let mut parser = Parser::new("1 + 2".to_string(), |text: &str| {
        if text == "1" {
            Some(111)
        } else {
            None
        }
    });
    assert_eq!(parser.parse(), Err(ParserError::FloatLiteralParse));
}

#[test]
fn only_number_literals_are_given_to_the_function() {
    let mut parser = Parser::new("abc + true * (7)".to_string(), |text: &str| {
        assert_eq!(text, "7");
        Some(7)
    });
    assert_eq!(
        parser.parse(),
        expression(binary(
            BinOpKind::Add,
            name("abc"),
            binary(BinOpKind::Mul, Expression::Bool(true), Expression::F64(7))
        ))
    );
}

#[test]
fn a_statement_can_be_parsed_without_the_end_marker() {
    let mut parser = Parser::new("1 + 2) * 3".to_string(), float_literal);
    assert_eq!(
        parser.parse_statement(),
        Ok(Statement::ExpressionStatement(binary(BinOpKind::Add, number(1.0), number(2.0))))
    );
    assert_eq!(parser.parse_expression(), Err(ParserError::UnexpectedToken));
}

#[test]
fn the_parts_of_a_parser_can_be_called_one_by_one() {
    let mut parser = Parser::new("(1) true".to_string(), float_literal);
    assert_eq!(parser.parse_expression(), Err(ParserError::UnexpectedToken));
    let mut parser = Parser::new("x".to_string(), float_literal);
    assert_eq!(parser.parse_variable_declaration(), Err(ParserError::UnexpectedToken));
    assert_eq!(parser.parse_expression_statement(), Ok(Statement::ExpressionStatement(name("x"))));
    assert_eq!(parser.parse_expression_statement(), Err(ParserError::UnexpectedToken));
}

#[test]
fn a_parser_that_is_done_fails_when_asked_again() {
    let mut parser = Parser::new("1".to_string(), float_literal);
    assert_eq!(parser.parse(), expression(number(1.0)));
    assert_eq!(parser.parse(), Err(ParserError::UnexpectedToken));
    assert_eq!(parser.parse(), Err(ParserError::UnexpectedToken));
}
