//! The parser: from tokens to a syntax tree, by recursive descent with
//! precedence climbing.
use crate::lexer::{lemma_scan_advances, tokens_from, Lexer};
use crate::syntax_tree::{
    BinOpKind, CompilationUnit, Expression, ExpressionView, Statement, StatementView,
};
use crate::token::{Token, TokenKind, TokenView};
use vstd::prelude::*;

verus! {

/// Why a parse failed.
#[derive(Debug, Copy, Clone, PartialEq, Eq, Structural)]
pub enum ParserError {
    /// A number literal whose text is no number.
    FloatLiteralParse,
    /// A token of a kind that the grammar does not allow where it stands.
    UnexpectedToken,
}

pub type ParserResult<A> = Result<A, ParserError>;

/// What the parser reads of one token: its kind, its text and, for a number
/// literal, the bit pattern of the number (`None` where the text is no number).
pub struct Lexeme {
    pub kind: TokenKind,
    pub text: Seq<char>,
    pub value: Option<u64>,
}

/// What each of the tokens denotes.
pub open spec fn views(tokens: Seq<Token>) -> Seq<TokenView> {
    tokens.map_values(|token: Token| token@)
}

/// The end marker that closes a token sequence which has none.
pub open spec fn end_marker() -> TokenView {
    TokenView { kind: TokenKind::EndOfFile, text: Seq::empty() }
}

/// What a parser keeps of a token sequence: the tokens before the first
/// `EndOfFile` without the whitespace, and then that `EndOfFile`, or an empty
/// one where the sequence has none.
pub open spec fn significant(tokens: Seq<TokenView>) -> Seq<TokenView>
    decreases tokens.len(),
{
    if tokens.len() == 0 {
        seq![end_marker()]
    } else if tokens[0].kind == TokenKind::EndOfFile {
        seq![tokens[0]]
    } else if tokens[0].kind == TokenKind::Whitespace {
        significant(tokens.drop_first())
    } else {
        seq![tokens[0]] + significant(tokens.drop_first())
    }
}

/// What a parser keeps is never empty and ends with an `EndOfFile`, and
/// before that it holds neither an `EndOfFile` nor whitespace.
pub proof fn lemma_significant_ends_with_end_of_file(tokens: Seq<TokenView>)
    ensures
        significant(tokens).len() > 0,
        significant(tokens).last().kind == TokenKind::EndOfFile,
        forall|i: int|
            0 <= i < significant(tokens).len() - 1 ==> {
                &&& (#[trigger] significant(tokens)[i]).kind != TokenKind::EndOfFile
                &&& significant(tokens)[i].kind != TokenKind::Whitespace
            },
    decreases tokens.len(),
{
    if tokens.len() > 0 && tokens[0].kind != TokenKind::EndOfFile {
        lemma_significant_ends_with_end_of_file(tokens.drop_first());
    }
}

/// Whether `value` is what belongs to the token: for a number literal, a
/// result of `float_literal` on the token's text; for every other token,
/// nothing.
pub open spec fn value_of<F: Fn(&str) -> Option<u64>>(
    float_literal: F,
    token: TokenView,
    value: Option<u64>,
) -> bool {
    if token.kind == TokenKind::FloatLiteral {
        exists|text: &str| text@ == token.text && call_ensures(float_literal, (text,), value)
    } else {
        value is None
    }
}

/// Whether `lexemes` are the `tokens`, each with the value that belongs to it.
pub open spec fn reads<F: Fn(&str) -> Option<u64>>(
    lexemes: Seq<Lexeme>,
    tokens: Seq<TokenView>,
    float_literal: F,
) -> bool {
    &&& lexemes.len() == tokens.len()
    &&& forall|i: int|
        0 <= i < tokens.len() ==> {
            &&& (#[trigger] lexemes[i]).kind == tokens[i].kind
            &&& lexemes[i].text == tokens[i].text
            &&& value_of(float_literal, tokens[i], lexemes[i].value)
        }
}

/// The outcome of a parse: what was parsed, or why not, and where the cursor
/// stands afterwards.
pub struct Parsed<T> {
    pub result: Result<T, ParserError>,
    pub position: int,
}

/// What a result of the parser denotes.
pub open spec fn result_view<T: View>(result: ParserResult<T>) -> Result<T::V, ParserError> {
    match result {
        Ok(value) => Ok(value@),
        Err(error) => Err(error),
    }
}

/// The outcome that a result and the position of the cursor make up.
pub open spec fn outcome<T: View>(result: ParserResult<T>, position: int) -> Parsed<T::V> {
    Parsed { result: result_view(result), position }
}

/// The kind of the token at `position`. Behind the last token, which is the end
/// marker, the end marker is read again.
pub open spec fn kind_at(lexemes: Seq<Lexeme>, position: int) -> TokenKind {
    if 0 <= position < lexemes.len() {
        lexemes[position].kind
    } else {
        TokenKind::EndOfFile
    }
}

/// The position one token on; behind the last token the cursor stays where it
/// is.
pub open spec fn advance(lexemes: Seq<Lexeme>, position: int) -> int {
    if position < lexemes.len() {
        position + 1
    } else {
        position
    }
}

/// A number literal: the number that its text stands for, or
/// `FloatLiteralParse` where it stands for none. The literal is consumed
/// either way.
pub open spec fn float_literal_at(lexemes: Seq<Lexeme>, position: int) -> Parsed<ExpressionView> {
    if kind_at(lexemes, position) != TokenKind::FloatLiteral {
        Parsed { result: Err(ParserError::UnexpectedToken), position }
    } else {
        match lexemes[position].value {
            Some(bits) => Parsed { result: Ok(ExpressionView::F64(bits)), position: position + 1 },
            None => Parsed { result: Err(ParserError::FloatLiteralParse), position: position + 1 },
        }
    }
}

/// `true` or `false`.
pub open spec fn boolean_literal_at(lexemes: Seq<Lexeme>, position: int) -> Parsed<
    ExpressionView,
> {
    match kind_at(lexemes, position) {
        TokenKind::True => Parsed { result: Ok(ExpressionView::Bool(true)), position: position + 1 },
        TokenKind::False => Parsed {
            result: Ok(ExpressionView::Bool(false)),
            position: position + 1,
        },
        _ => Parsed { result: Err(ParserError::UnexpectedToken), position },
    }
}

/// A name.
pub open spec fn identifier_at(lexemes: Seq<Lexeme>, position: int) -> Parsed<ExpressionView> {
    if kind_at(lexemes, position) == TokenKind::Identifier {
        Parsed {
            result: Ok(ExpressionView::Identifier(lexemes[position].text)),
            position: position + 1,
        }
    } else {
        Parsed { result: Err(ParserError::UnexpectedToken), position }
    }
}

/// `(`, a binary expression with no limit on how loosely its operators bind,
/// and `)`.
pub open spec fn parenthesised_at(lexemes: Seq<Lexeme>, position: int) -> Parsed<ExpressionView>
    decreases lexemes.len() - position, 0int,
{
    if kind_at(lexemes, position) != TokenKind::LeftParenthesis {
        Parsed { result: Err(ParserError::UnexpectedToken), position }
    } else {
        let inner = binary_at(lexemes, position + 1, 0);
        if inner.result is Ok && kind_at(lexemes, inner.position) != TokenKind::RightParenthesis {
            Parsed { result: Err(ParserError::UnexpectedToken), position: inner.position }
        } else if inner.result is Ok {
            Parsed { result: inner.result, position: inner.position + 1 }
        } else {
            inner
        }
    }
}

/// A primary expression: one in parentheses, a literal or a name.
pub open spec fn primary_at(lexemes: Seq<Lexeme>, position: int) -> Parsed<ExpressionView>
    decreases lexemes.len() - position, 1int,
{
    match kind_at(lexemes, position) {
        TokenKind::LeftParenthesis => parenthesised_at(lexemes, position),
        TokenKind::FloatLiteral => float_literal_at(lexemes, position),
        TokenKind::True => boolean_literal_at(lexemes, position),
        TokenKind::False => boolean_literal_at(lexemes, position),
        TokenKind::Identifier => identifier_at(lexemes, position),
        _ => Parsed { result: Err(ParserError::UnexpectedToken), position },
    }
}

/// Whether a parse that began at `start` ended behind it and within the
/// tokens. A parse that succeeds always does
/// ([`lemma_binary_moves`]); the definitions below ask, so that they are
/// well-founded.
pub open spec fn moved(lexemes: Seq<Lexeme>, start: int, end: int) -> bool {
    start < end <= lexemes.len()
}

/// What follows a left operand. The end marker and `)` end the expression, and
/// so does an operator whose left binding power is below `min_bp`. Any other
/// operator takes as its right operand the binary expression behind it whose
/// operators all bind at least as tightly as the operator's right power, and
/// the two operands together are the left operand of what follows. A token that
/// is none of these is an error.
pub open spec fn climb_at(
    lexemes: Seq<Lexeme>,
    left: ExpressionView,
    position: int,
    min_bp: u8,
) -> Parsed<ExpressionView>
    decreases lexemes.len() - position, 2int,
{
    let kind = kind_at(lexemes, position);
    if kind == TokenKind::EndOfFile || kind == TokenKind::RightParenthesis {
        Parsed { result: Ok(left), position }
    } else {
        match kind.binary_operator() {
            None => Parsed { result: Err(ParserError::UnexpectedToken), position },
            Some(operator) => {
                if operator.binding_power().0 < min_bp {
                    Parsed { result: Ok(left), position }
                } else {
                    let operand = binary_at(lexemes, position + 1, operator.binding_power().1);
                    match operand.result {
                        Ok(right) if moved(lexemes, position, operand.position) => climb_at(
                            lexemes,
                            ExpressionView::BinOp(operator, Box::new(left), Box::new(right)),
                            operand.position,
                            min_bp,
                        ),
                        _ => operand,
                    }
                }
            },
        }
    }
}

/// A binary expression whose operators all have a left binding power of at
/// least `min_bp`: a primary expression and what follows it.
pub open spec fn binary_at(lexemes: Seq<Lexeme>, position: int, min_bp: u8) -> Parsed<
    ExpressionView,
>
    decreases lexemes.len() - position, 3int,
{
    let first = primary_at(lexemes, position);
    match first.result {
        Ok(left) if moved(lexemes, position, first.position) => climb_at(
            lexemes,
            left,
            first.position,
            min_bp,
        ),
        _ => first,
    }
}

/// An expression: a name, `=` and an expression, which assigns; or else a
/// binary expression. Assignment groups to the right.
pub open spec fn assignment_at(lexemes: Seq<Lexeme>, position: int) -> Parsed<ExpressionView>
    decreases lexemes.len() - position,
{
    if kind_at(lexemes, position) == TokenKind::Identifier && kind_at(lexemes, position + 1)
        == TokenKind::Equals {
        let value = assignment_at(lexemes, position + 2);
        match value.result {
            Ok(expression) => Parsed {
                result: Ok(ExpressionView::Assignment(lexemes[position].text, Box::new(expression))),
                position: value.position,
            },
            Err(_) => value,
        }
    } else {
        binary_at(lexemes, position, 0)
    }
}

/// A declaration: `let`, a name, `=` and an expression.
pub open spec fn declaration_at(lexemes: Seq<Lexeme>, position: int) -> Parsed<StatementView> {
    if kind_at(lexemes, position) != TokenKind::Let {
        Parsed { result: Err(ParserError::UnexpectedToken), position }
    } else if kind_at(lexemes, position + 1) != TokenKind::Identifier {
        Parsed { result: Err(ParserError::UnexpectedToken), position: position + 1 }
    } else if kind_at(lexemes, position + 2) != TokenKind::Equals {
        Parsed { result: Err(ParserError::UnexpectedToken), position: position + 2 }
    } else {
        let initializer = assignment_at(lexemes, position + 3);
        Parsed {
            result: match initializer.result {
                Ok(expression) => Ok(
                    StatementView::VariableDeclaration(lexemes[position + 1].text, expression),
                ),
                Err(error) => Err(error),
            },
            position: initializer.position,
        }
    }
}

/// An expression that stands as a statement.
pub open spec fn expression_statement_at(lexemes: Seq<Lexeme>, position: int) -> Parsed<
    StatementView,
> {
    let expression = assignment_at(lexemes, position);
    Parsed {
        result: match expression.result {
            Ok(expression) => Ok(StatementView::ExpressionStatement(expression)),
            Err(error) => Err(error),
        },
        position: expression.position,
    }
}

/// A statement: a declaration where it begins with `let`, else an expression.
pub open spec fn statement_at(lexemes: Seq<Lexeme>, position: int) -> Parsed<StatementView> {
    if kind_at(lexemes, position) == TokenKind::Let {
        declaration_at(lexemes, position)
    } else {
        expression_statement_at(lexemes, position)
    }
}

/// A whole input: one statement, and then the end marker.
pub open spec fn compilation_unit_at(lexemes: Seq<Lexeme>, position: int) -> Parsed<StatementView> {
    let statement = statement_at(lexemes, position);
    if statement.result is Ok && kind_at(lexemes, statement.position) != TokenKind::EndOfFile {
        Parsed { result: Err(ParserError::UnexpectedToken), position: statement.position }
    } else if statement.result is Ok {
        Parsed { result: statement.result, position: advance(lexemes, statement.position) }
    } else {
        statement
    }
}

/// An expression in parentheses ends within the tokens and not before its
/// start, and behind its start where it is one.
pub proof fn lemma_parenthesised_moves(lexemes: Seq<Lexeme>, position: int)
    requires
        0 <= position <= lexemes.len(),
    ensures
        position <= parenthesised_at(lexemes, position).position <= lexemes.len(),
        parenthesised_at(lexemes, position).result is Ok ==> moved(
            lexemes,
            position,
            parenthesised_at(lexemes, position).position,
        ),
    decreases lexemes.len() - position, 0int,
{
    if kind_at(lexemes, position) == TokenKind::LeftParenthesis {
        lemma_binary_moves(lexemes, position + 1, 0);
    }
}

/// A primary expression ends within the tokens and not before its start, and
/// behind its start where it is one.
pub proof fn lemma_primary_moves(lexemes: Seq<Lexeme>, position: int)
    requires
        0 <= position <= lexemes.len(),
    ensures
        position <= primary_at(lexemes, position).position <= lexemes.len(),
        primary_at(lexemes, position).result is Ok ==> moved(
            lexemes,
            position,
            primary_at(lexemes, position).position,
        ),
    decreases lexemes.len() - position, 1int,
{
    if kind_at(lexemes, position) == TokenKind::LeftParenthesis {
        lemma_parenthesised_moves(lexemes, position);
    }
}

/// What follows a left operand ends within the tokens and not before its
/// start.
pub proof fn lemma_climb_moves(
    lexemes: Seq<Lexeme>,
    left: ExpressionView,
    position: int,
    min_bp: u8,
)
    requires
        0 <= position <= lexemes.len(),
    ensures
        position <= climb_at(lexemes, left, position, min_bp).position <= lexemes.len(),
    decreases lexemes.len() - position, 2int,
{
    let kind = kind_at(lexemes, position);
    if kind != TokenKind::EndOfFile && kind != TokenKind::RightParenthesis {
        if let Some(operator) = kind.binary_operator() {
            if operator.binding_power().0 >= min_bp {
                lemma_binary_moves(lexemes, position + 1, operator.binding_power().1);
                let operand = binary_at(lexemes, position + 1, operator.binding_power().1);
                if let Ok(right) = operand.result {
                    lemma_climb_moves(
                        lexemes,
                        ExpressionView::BinOp(operator, Box::new(left), Box::new(right)),
                        operand.position,
                        min_bp,
                    );
                }
            }
        }
    }
}

/// A binary expression ends within the tokens and not before its start, and
/// behind its start where it is one.
pub proof fn lemma_binary_moves(lexemes: Seq<Lexeme>, position: int, min_bp: u8)
    requires
        0 <= position <= lexemes.len(),
    ensures
        position <= binary_at(lexemes, position, min_bp).position <= lexemes.len(),
        binary_at(lexemes, position, min_bp).result is Ok ==> moved(
            lexemes,
            position,
            binary_at(lexemes, position, min_bp).position,
        ),
    decreases lexemes.len() - position, 3int,
{
    lemma_primary_moves(lexemes, position);
    let first = primary_at(lexemes, position);
    if let Ok(left) = first.result {
        lemma_climb_moves(lexemes, left, first.position, min_bp);
    }
}

/// An expression ends within the tokens and not before its start, and behind
/// its start where it is one.
pub proof fn lemma_assignment_moves(lexemes: Seq<Lexeme>, position: int)
    requires
        0 <= position <= lexemes.len(),
    ensures
        position <= assignment_at(lexemes, position).position <= lexemes.len(),
        assignment_at(lexemes, position).result is Ok ==> moved(
            lexemes,
            position,
            assignment_at(lexemes, position).position,
        ),
    decreases lexemes.len() - position,
{
    if kind_at(lexemes, position) == TokenKind::Identifier && kind_at(lexemes, position + 1)
        == TokenKind::Equals {
        lemma_assignment_moves(lexemes, position + 2);
    } else {
        lemma_binary_moves(lexemes, position, 0);
    }
}

/// Of two operators in a row, the one that binds tighter gets the operand
/// between them, and the one on the left where they bind alike: for three
/// names with two operators between them and nothing behind, the second
/// operator applies to the first operation where its left binding power is
/// below the right binding power of the first operator, and else the first
/// operator applies to the second operation.
pub proof fn lemma_the_tighter_operator_takes_the_operand(
    lexemes: Seq<Lexeme>,
    position: int,
    first: BinOpKind,
    second: BinOpKind,
)
    requires
        0 <= position,
        position + 5 < lexemes.len(),
        kind_at(lexemes, position) == TokenKind::Identifier,
        kind_at(lexemes, position + 1).binary_operator() == Some(first),
        kind_at(lexemes, position + 2) == TokenKind::Identifier,
        kind_at(lexemes, position + 3).binary_operator() == Some(second),
        kind_at(lexemes, position + 4) == TokenKind::Identifier,
        kind_at(lexemes, position + 5) == TokenKind::EndOfFile,
    ensures
        binary_at(lexemes, position, 0).position == position + 5,
        binary_at(lexemes, position, 0).result == Ok::<ExpressionView, ParserError>(
            if second.binding_power().0 < first.binding_power().1 {
                ExpressionView::BinOp(
                    second,
                    Box::new(
                        ExpressionView::BinOp(
                            first,
                            Box::new(ExpressionView::Identifier(lexemes[position].text)),
                            Box::new(ExpressionView::Identifier(lexemes[position + 2].text)),
                        ),
                    ),
                    Box::new(ExpressionView::Identifier(lexemes[position + 4].text)),
                )
            } else {
                ExpressionView::BinOp(
                    first,
                    Box::new(ExpressionView::Identifier(lexemes[position].text)),
                    Box::new(
                        ExpressionView::BinOp(
                            second,
                            Box::new(ExpressionView::Identifier(lexemes[position + 2].text)),
                            Box::new(ExpressionView::Identifier(lexemes[position + 4].text)),
                        ),
                    ),
                )
            },
        ),
{
    reveal_with_fuel(binary_at, 4);
    reveal_with_fuel(climb_at, 4);
    reveal_with_fuel(primary_at, 4);
}

/// A cursor over the significant tokens of a text.
pub struct Parser {
    position: usize,
    tokens: Vec<Token>,
    values: Vec<Option<u64>>,
}

impl Parser {
    #[verifier::type_invariant]
    spec fn well_formed(self) -> bool {
        &&& self.tokens@.len() == self.values@.len()
        &&& self.tokens@.len() > 0
        &&& self.tokens@.last().kind == TokenKind::EndOfFile
        &&& self.position <= self.tokens@.len()
    }

    /// The tokens that the parser works on. The last one is an `EndOfFile`.
    pub closed spec fn lexemes(&self) -> Seq<Lexeme> {
        Seq::new(
            self.tokens@.len(),
            |i: int|
                Lexeme {
                    kind: self.tokens@[i].kind,
                    text: self.tokens@[i].text@,
                    value: self.values@[i],
                },
        )
    }

    /// The position of the cursor: how many tokens have been consumed.
    pub closed spec fn position(&self) -> int {
        self.position as int
    }

    /// A parser at the start of the significant tokens of `text`.
    /// `float_literal` is asked once for each number literal, and hands back
    /// the bit pattern of the number that the literal's text stands for, or
    /// `None`.
    pub fn new<F: Fn(&str) -> Option<u64>>(text: String, float_literal: F) -> (parser: Self)
        requires
            forall|literal: &str| call_requires(float_literal, (literal,)),
        ensures
            parser.position() == 0,
            reads(parser.lexemes(), significant(tokens_from(text@, 0)), float_literal),
    {
        let ghost source = text@;
        let mut tokens: Vec<Token> = Vec::new();
        let mut lexer = Lexer::new(text);
        loop
            invariant_except_break
                lexer.text() == source,
                0 <= lexer.position() <= source.len(),
                views(tokens@) + significant(tokens_from(source, lexer.position()))
                    == significant(tokens_from(source, 0)),
            ensures
                views(tokens@) == significant(tokens_from(source, 0)),
                tokens@.len() > 0,
                tokens@.last().kind == TokenKind::EndOfFile,
            decreases source.len() - lexer.position(),
        {
            let ghost start = lexer.position();
            let token = lexer.next();
            proof {
                lemma_scan_advances(source, start);
                if start < source.len() {
                    assert(tokens_from(source, start).drop_first() == tokens_from(
                        source,
                        lexer.position(),
                    ));
                }
            }
            if token.kind == TokenKind::Whitespace {
                continue ;
            }
            let kind = token.kind;
            tokens.push(token);
            if kind == TokenKind::EndOfFile {
                break ;
            }
        }
        Self::with_values(tokens, float_literal)
    }

    /// A parser at the start of the significant tokens among `tokens`.
    pub fn from_tokens<F: Fn(&str) -> Option<u64>>(tokens: Vec<Token>, float_literal: F) -> (parser:
        Self)
        requires
            forall|literal: &str| call_requires(float_literal, (literal,)),
        ensures
            parser.position() == 0,
            reads(parser.lexemes(), significant(views(tokens@)), float_literal),
    {
        let mut kept: Vec<Token> = Vec::new();
        let mut index: usize = 0;
        let mut closed = false;
        assert(views(tokens@).skip(0) == views(tokens@));
        while index < tokens.len()
            invariant_except_break
                !closed,
                index <= tokens.len(),
                views(kept@) + significant(views(tokens@).skip(index as int)) == significant(
                    views(tokens@),
                ),
            ensures
                closed ==> views(kept@) == significant(views(tokens@)),
                closed ==> kept@.len() > 0 && kept@.last().kind == TokenKind::EndOfFile,
                !closed ==> views(kept@) + seq![end_marker()] == significant(views(tokens@)),
            decreases tokens.len() - index,
        {
            assert(views(tokens@).skip(index as int).drop_first() == views(tokens@).skip(
                index + 1,
            ));
            let token = tokens[index].clone();
            let kind = token.kind;
            index += 1;
            if kind == TokenKind::Whitespace {
                continue ;
            }
            kept.push(token);
            if kind == TokenKind::EndOfFile {
                closed = true;
                break ;
            }
        }
        if !closed {
            kept.push(Token { kind: TokenKind::EndOfFile, text: String::new() });
        }
        Self::with_values(kept, float_literal)
    }

    /// Asks `float_literal` for the value of each number literal.
    fn with_values<F: Fn(&str) -> Option<u64>>(tokens: Vec<Token>, float_literal: F) -> (parser:
        Self)
        requires
            forall|literal: &str| call_requires(float_literal, (literal,)),
            tokens@.len() > 0,
            tokens@.last().kind == TokenKind::EndOfFile,
        ensures
            parser.position() == 0,
            reads(parser.lexemes(), views(tokens@), float_literal),
    {
        let mut values: Vec<Option<u64>> = Vec::new();
        let mut index: usize = 0;
        while index < tokens.len()
            invariant
                forall|literal: &str| call_requires(float_literal, (literal,)),
                index <= tokens.len(),
                values@.len() == index,
                forall|i: int|
                    0 <= i < index ==> value_of(float_literal, tokens@[i]@, #[trigger] values@[i]),
            decreases tokens.len() - index,
        {
            let value = if tokens[index].kind == TokenKind::FloatLiteral {
                float_literal(tokens[index].text.as_str())
            } else {
                None
            };
            values.push(value);
            index += 1;
        }
        Parser { position: 0, tokens, values }
    }

    /// The token `offset` tokens behind the cursor, or the last token where
    /// there is none.
    fn peek(&self, offset: usize) -> (token: Token)
        ensures
            token.kind == kind_at(self.lexemes(), self.position() + offset),
            self.position() + offset < self.lexemes().len() ==> token.text@
                == self.lexemes()[self.position() + offset].text,
    {
        proof {
            use_type_invariant(self);
        }
        let last = self.tokens.len() - 1;
        let index = match self.position.checked_add(offset) {
            Some(index) => if index < last {
                index
            } else {
                last
            },
            None => last,
        };
        self.tokens[index].clone()
    }

    fn current(&self) -> (token: Token)
        ensures
            token.kind == kind_at(self.lexemes(), self.position()),
            self.position() < self.lexemes().len() ==> token.text@
                == self.lexemes()[self.position()].text,
    {
        self.peek(0)
    }

    /// Consumes the token at the cursor.
    fn next(&mut self) -> (token: Token)
        ensures
            final(self).lexemes() == old(self).lexemes(),
            final(self).position() == advance(old(self).lexemes(), old(self).position()),
            token.kind == kind_at(old(self).lexemes(), old(self).position()),
            old(self).position() < old(self).lexemes().len() ==> token.text@
                == old(self).lexemes()[old(self).position()].text,
    {
        proof {
            use_type_invariant(&*self);
        }
        let token = self.current();
        if self.position < self.tokens.len() {
            self.position += 1;
        }
        token
    }

    /// Consumes the token at the cursor where it is of the kind `expected`, and
    /// fails without moving where it is not.
    fn expect(&mut self, expected: TokenKind) -> (result: ParserResult<Token>)
        ensures
            final(self).lexemes() == old(self).lexemes(),
            match result {
                Ok(token) => {
                    &&& kind_at(old(self).lexemes(), old(self).position()) == expected
                    &&& token.kind == expected
                    &&& old(self).position() < old(self).lexemes().len() ==> token.text@
                        == old(self).lexemes()[old(self).position()].text
                    &&& final(self).position() == advance(
                        old(self).lexemes(),
                        old(self).position(),
                    )
                },
                Err(error) => {
                    &&& error == ParserError::UnexpectedToken
                    &&& kind_at(old(self).lexemes(), old(self).position()) != expected
                    &&& final(self).position() == old(self).position()
                },
            },
    {
        proof {
            use_type_invariant(&*self);
        }
        let actual = self.current();
        if actual.kind == expected {
            if self.position < self.tokens.len() {
                self.position += 1;
            }
            Ok(actual)
        } else {
            Err(ParserError::UnexpectedToken)
        }
    }

    /// Parses a whole input: one statement that the end marker follows.
    pub fn parse(&mut self) -> (result: ParserResult<CompilationUnit>)
        ensures
            final(self).lexemes() == old(self).lexemes(),
            outcome(result, final(self).position()) == compilation_unit_at(old(self).lexemes(), old(self).position()),
    {
        let statement = self.parse_statement()?;
        self.expect(TokenKind::EndOfFile)?;
        Ok(CompilationUnit { statement })
    }

    /// Parses a statement.
    pub fn parse_statement(&mut self) -> (result: ParserResult<Statement>)
        ensures
            final(self).lexemes() == old(self).lexemes(),
            outcome(result, final(self).position()) == statement_at(old(self).lexemes(), old(self).position()),
    {
        if self.current().kind == TokenKind::Let {
            return self.parse_variable_declaration();
        }
        self.parse_expression_statement()
    }

    /// Parses a declaration.
    pub fn parse_variable_declaration(&mut self) -> (result: ParserResult<Statement>)
        ensures
            final(self).lexemes() == old(self).lexemes(),
            outcome(result, final(self).position()) == declaration_at(old(self).lexemes(), old(self).position()),
    {
        let _keyword = self.expect(TokenKind::Let)?;
        let identifier = self.expect(TokenKind::Identifier)?;
        let _equals = self.expect(TokenKind::Equals)?;
        let expression = self.parse_expression()?;
        Ok(Statement::VariableDeclaration(identifier.text, Box::new(expression)))
    }

    /// Parses an expression that stands as a statement.
    pub fn parse_expression_statement(&mut self) -> (result: ParserResult<Statement>)
        ensures
            final(self).lexemes() == old(self).lexemes(),
            outcome(result, final(self).position()) == expression_statement_at(old(self).lexemes(), old(self).position()),
    {
        let expression = self.parse_expression()?;
        Ok(Statement::ExpressionStatement(expression))
    }

    /// Parses an expression.
    pub fn parse_expression(&mut self) -> (result: ParserResult<Expression>)
        ensures
            final(self).lexemes() == old(self).lexemes(),
            outcome(result, final(self).position()) == assignment_at(old(self).lexemes(), old(self).position()),
    {
        self.parse_assignment_expression()
    }

    fn parse_assignment_expression(&mut self) -> (result: ParserResult<Expression>)
        ensures
            final(self).lexemes() == old(self).lexemes(),
            outcome(result, final(self).position()) == assignment_at(old(self).lexemes(), old(self).position()),
        decreases old(self).lexemes().len() - old(self).position(),
    {
        proof {
            use_type_invariant(&*self);
        }
        if self.peek(0).kind == TokenKind::Identifier && self.peek(1).kind == TokenKind::Equals {
            let identifier = self.next();
            let _operator = self.next();
            let right = self.parse_assignment_expression()?;
            return Ok(Expression::Assignment(identifier.text, Box::new(right)));
        }
        self.parse_binary_expression(0)
    }

    fn parse_binary_expression(&mut self, min_bp: u8) -> (result: ParserResult<Expression>)
        ensures
            final(self).lexemes() == old(self).lexemes(),
            outcome(result, final(self).position()) == binary_at(old(self).lexemes(), old(self).position(), min_bp),
        decreases old(self).lexemes().len() - old(self).position(), 3int,
    {
        let ghost lexemes = self.lexemes();
        let ghost start = self.position();
        proof {
            use_type_invariant(&*self);
            lemma_primary_moves(lexemes, start);
        }
        let mut left = self.parse_primary_statement()?;
        loop
            invariant
                lexemes == old(self).lexemes(),
                start == old(self).position(),
                self.lexemes() == lexemes,
                start < self.position() <= lexemes.len(),
                climb_at(lexemes, left@, self.position(), min_bp) == binary_at(
                    lexemes,
                    start,
                    min_bp,
                ),
            ensures
                binary_at(lexemes, start, min_bp) == outcome(Ok::<Expression, ParserError>(left), self.position()),
            decreases lexemes.len() - self.position(),
        {
            let kind = self.current().kind;
            if kind == TokenKind::EndOfFile || kind == TokenKind::RightParenthesis {
                break ;
            }
            let operator = match kind.is_binary_operator() {
                Some(operator) => operator,
                None => {
                    return Err(ParserError::UnexpectedToken);
                },
            };
            let (left_power, right_power) = operator.precedence();
            if left_power < min_bp {
                break ;
            }
            proof {
                lemma_binary_moves(lexemes, self.position() + 1, right_power);
            }
            self.next();
            let right = self.parse_binary_expression(right_power)?;
            left = Expression::BinOp(operator, Box::new(left), Box::new(right));
        }
        Ok(left)
    }

    fn parse_primary_statement(&mut self) -> (result: ParserResult<Expression>)
        ensures
            final(self).lexemes() == old(self).lexemes(),
            outcome(result, final(self).position()) == primary_at(old(self).lexemes(), old(self).position()),
        decreases old(self).lexemes().len() - old(self).position(), 1int,
    {
        let value = self.current();
        match value.kind {
            TokenKind::LeftParenthesis => self.parse_parenthesised_expression(),
            TokenKind::FloatLiteral => self.parse_float_literal(),
            TokenKind::True => self.parse_boolean_literal(),
            TokenKind::False => self.parse_boolean_literal(),
            TokenKind::Identifier => self.parse_identifier(),
            _ => Err(ParserError::UnexpectedToken),
        }
    }

    fn parse_parenthesised_expression(&mut self) -> (result: ParserResult<Expression>)
        ensures
            final(self).lexemes() == old(self).lexemes(),
            outcome(result, final(self).position()) == parenthesised_at(old(self).lexemes(), old(self).position()),
        decreases old(self).lexemes().len() - old(self).position(), 0int,
    {
        proof {
            use_type_invariant(&*self);
        }
        self.expect(TokenKind::LeftParenthesis)?;
        let expression = self.parse_binary_expression(0)?;
        proof {
            use_type_invariant(&*self);
        }
        self.expect(TokenKind::RightParenthesis)?;
        Ok(expression)
    }

    fn parse_float_literal(&mut self) -> (result: ParserResult<Expression>)
        ensures
            final(self).lexemes() == old(self).lexemes(),
            outcome(result, final(self).position()) == float_literal_at(old(self).lexemes(), old(self).position()),
    {
        proof {
            use_type_invariant(&*self);
        }
        let index = self.position;
        self.expect(TokenKind::FloatLiteral)?;
        proof {
            use_type_invariant(&*self);
        }
        match self.values[index] {
            Some(bits) => Ok(Expression::F64(bits)),
            None => Err(ParserError::FloatLiteralParse),
        }
    }

    fn parse_boolean_literal(&mut self) -> (result: ParserResult<Expression>)
        ensures
            final(self).lexemes() == old(self).lexemes(),
            outcome(result, final(self).position()) == boolean_literal_at(old(self).lexemes(), old(self).position()),
    {
        let token = self.current();
        let syntax_tree = match token.kind {
            TokenKind::True => Ok(Expression::Bool(true)),
            TokenKind::False => Ok(Expression::Bool(false)),
            _ => Err(ParserError::UnexpectedToken),
        };
        if syntax_tree.is_ok() {
            self.next();
        }
        syntax_tree
    }

    fn parse_identifier(&mut self) -> (result: ParserResult<Expression>)
        ensures
            final(self).lexemes() == old(self).lexemes(),
            outcome(result, final(self).position()) == identifier_at(old(self).lexemes(), old(self).position()),
    {
        let token = self.expect(TokenKind::Identifier)?;
        Ok(Expression::Identifier(token.text))
    }
}

} // verus!
