use minicalc::syntax_tree::BinOpKind;
use minicalc::token::TokenKind;

#[test]
fn keyword_recognises_each_keyword() {
    assert_eq!(TokenKind::keyword("true"), TokenKind::True);
    assert_eq!(TokenKind::keyword("false"), TokenKind::False);
    assert_eq!(TokenKind::keyword("let"), TokenKind::Let);
}

#[test]
fn keyword_takes_any_other_word_for_an_identifier() {
    assert_eq!(TokenKind::keyword("lets"), TokenKind::Identifier);
    assert_eq!(TokenKind::keyword("True"), TokenKind::Identifier);
    assert_eq!(TokenKind::keyword("x1"), TokenKind::Identifier);
    assert_eq!(TokenKind::keyword(""), TokenKind::Identifier);
}

#[test]
fn operator_tokens_map_to_their_operators() {
    assert_eq!(TokenKind::Plus.is_binary_operator(), Some(BinOpKind::Add));
    assert_eq!(TokenKind::Minus.is_binary_operator(), Some(BinOpKind::Sub));
    assert_eq!(TokenKind::Asterisk.is_binary_operator(), Some(BinOpKind::Mul));
    assert_eq!(TokenKind::Slash.is_binary_operator(), Some(BinOpKind::Div));
    assert_eq!(TokenKind::PipePipe.is_binary_operator(), Some(BinOpKind::LogicalOr));
    assert_eq!(TokenKind::AmpersandAmpersand.is_binary_operator(), Some(BinOpKind::LogicalAnd));
}

#[test]
fn other_tokens_are_no_operators() {
    for kind in [
        TokenKind::EndOfFile,
        TokenKind::BadToken,
        TokenKind::Whitespace,
        TokenKind::LeftParenthesis,
        TokenKind::RightParenthesis,
        TokenKind::FloatLiteral,
        TokenKind::True,
        TokenKind::False,
        TokenKind::Identifier,
        TokenKind::Let,
        TokenKind::Equals,
    ] {
        assert_eq!(kind.is_binary_operator(), None);
    }
}

#[test]
fn binding_powers_are_those_of_the_table() {
    assert_eq!(BinOpKind::Add.precedence(), (1, 2));
    assert_eq!(BinOpKind::Sub.precedence(), (1, 2));
    assert_eq!(BinOpKind::Mul.precedence(), (3, 4));
    assert_eq!(BinOpKind::Div.precedence(), (3, 4));
    assert_eq!(BinOpKind::LogicalAnd.precedence(), (5, 6));
    assert_eq!(BinOpKind::LogicalOr.precedence(), (7, 8));
}
