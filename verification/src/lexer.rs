//! The lexer: from source text to tokens, one at a time.
use crate::token::{keyword_kind, Token, TokenKind, TokenView};
use vstd::prelude::*;
use vstd::string::StrSliceExecFns;

verus! {

/// What `char::is_whitespace` returns for the character.
pub uninterp spec fn is_whitespace(c: char) -> bool;

/// What `char::is_numeric` returns for the character.
pub uninterp spec fn is_numeric(c: char) -> bool;

/// What `char::is_alphabetic` returns for the character.
pub uninterp spec fn is_alphabetic(c: char) -> bool;

/// `char::is_whitespace` of std: whether Unicode counts the character as
/// `White_Space`. The answer depends on the character alone; nothing is
/// claimed about which characters these are.
pub assume_specification[ char::is_whitespace ](c: char) -> (answer: bool)
    ensures
        answer == is_whitespace(c),
;

/// `char::is_numeric` of std: whether the character is in one of the Unicode
/// number categories. The answer depends on the character alone; nothing is
/// claimed about which characters are numbers.
pub assume_specification[ char::is_numeric ](c: char) -> (answer: bool)
    ensures
        answer == is_numeric(c),
;

/// `char::is_alphabetic` of std: whether Unicode counts the character as
/// `Alphabetic`. The answer depends on the character alone; nothing is claimed
/// about which characters are letters.
pub assume_specification[ char::is_alphabetic ](c: char) -> (answer: bool)
    ensures
        answer == is_alphabetic(c),
;

/// `char::is_alphanumeric` of std, which its documentation defines as
/// `is_alphabetic` or `is_numeric`.
pub assume_specification[ char::is_alphanumeric ](c: char) -> (answer: bool)
    ensures
        answer == (is_alphabetic(c) || is_numeric(c)),
;

/// The class of whitespace characters.
pub open spec fn whitespace() -> spec_fn(char) -> bool {
    |c: char| is_whitespace(c)
}

/// The class of numeric characters.
pub open spec fn numeric() -> spec_fn(char) -> bool {
    |c: char| is_numeric(c)
}

/// The class of letters and numeric characters.
pub open spec fn alphanumeric() -> spec_fn(char) -> bool {
    |c: char| is_alphabetic(c) || is_numeric(c)
}

/// The character at `index`, or NUL where the text has none.
pub open spec fn char_at(text: Seq<char>, index: int) -> char {
    if 0 <= index < text.len() {
        text[index]
    } else {
        '\0'
    }
}

/// Where the longest run of characters of one class that starts at `from`
/// ends: the first position at or after `from` that holds no character of the
/// class.
pub open spec fn run_end(text: Seq<char>, from: int, class: spec_fn(char) -> bool) -> int
    decreases text.len() - from,
{
    if 0 <= from < text.len() && class(text[from]) {
        run_end(text, from + 1, class)
    } else {
        from
    }
}

/// The kind of the token that starts at `start`, and the position where it
/// ends. The rules are tried in this order: the end of the text, a run of
/// whitespace, a run of numeric characters, the operators and parentheses, a
/// word (a letter, then letters and numeric characters), and at last a single
/// character that nothing else accepts.
pub open spec fn scan(text: Seq<char>, start: int) -> (TokenKind, int) {
    let first = char_at(text, start);
    if !(0 <= start < text.len()) {
        (TokenKind::EndOfFile, start)
    } else if is_whitespace(first) {
        (TokenKind::Whitespace, run_end(text, start, whitespace()))
    } else if is_numeric(first) {
        (TokenKind::FloatLiteral, run_end(text, start, numeric()))
    } else if first == '+' {
        (TokenKind::Plus, start + 1)
    } else if first == '-' {
        (TokenKind::Minus, start + 1)
    } else if first == '*' {
        (TokenKind::Asterisk, start + 1)
    } else if first == '/' {
        (TokenKind::Slash, start + 1)
    } else if first == '(' {
        (TokenKind::LeftParenthesis, start + 1)
    } else if first == ')' {
        (TokenKind::RightParenthesis, start + 1)
    } else if first == '|' && char_at(text, start + 1) == '|' {
        (TokenKind::PipePipe, start + 2)
    } else if first == '&' && char_at(text, start + 1) == '&' {
        (TokenKind::AmpersandAmpersand, start + 2)
    } else if is_alphabetic(first) {
        let end = run_end(text, start, alphanumeric());
        (keyword_kind(text.subrange(start, end)), end)
    } else {
        (TokenKind::BadToken, start + 1)
    }
}

/// The position just behind the token that starts at `start`.
pub open spec fn token_end(text: Seq<char>, start: int) -> int {
    scan(text, start).1
}

/// The token that starts at `start`: its text is exactly what it spans.
pub open spec fn token_at(text: Seq<char>, start: int) -> TokenView {
    TokenView { kind: scan(text, start).0, text: text.subrange(start, token_end(text, start)) }
}

/// A run ends inside the text, at or after its start; all of it is of the
/// class, and what follows it is not.
pub proof fn lemma_run_end(text: Seq<char>, from: int, class: spec_fn(char) -> bool)
    requires
        0 <= from <= text.len(),
    ensures
        from <= run_end(text, from, class) <= text.len(),
        forall|i: int| from <= i < run_end(text, from, class) ==> class(#[trigger] text[i]),
        run_end(text, from, class) < text.len() ==> !class(text[run_end(text, from, class)]),
    decreases text.len() - from,
{
    if from < text.len() && class(text[from]) {
        lemma_run_end(text, from + 1, class);
    }
}

/// A token ends inside the text. Before the end of the text it spans at least
/// one character and is no `EndOfFile`; at the end it is an empty `EndOfFile`.
pub proof fn lemma_scan_advances(text: Seq<char>, start: int)
    requires
        0 <= start <= text.len(),
    ensures
        start <= token_end(text, start) <= text.len(),
        start < text.len() ==> start < token_end(text, start),
        (token_at(text, start).kind == TokenKind::EndOfFile) <==> start == text.len(),
{
    lemma_run_end(text, start, whitespace());
    lemma_run_end(text, start, numeric());
    lemma_run_end(text, start, alphanumeric());
}

/// The tokens that successive calls of [`Lexer::next`] return once the cursor
/// stands at `start`: every token up to the end of the text, whitespace
/// included, and then one `EndOfFile`.
pub open spec fn tokens_from(text: Seq<char>, start: int) -> Seq<TokenView>
    decreases text.len() - start,
    via tokens_from_terminates
{
    if 0 <= start < text.len() {
        seq![token_at(text, start)] + tokens_from(text, token_end(text, start))
    } else {
        seq![token_at(text, start)]
    }
}

#[via_fn]
proof fn tokens_from_terminates(text: Seq<char>, start: int) {
    if 0 <= start < text.len() {
        lemma_scan_advances(text, start);
    }
}

/// The texts of the tokens, one after the other.
pub open spec fn joined_text(tokens: Seq<TokenView>) -> Seq<char>
    decreases tokens.len(),
{
    if tokens.len() == 0 {
        Seq::empty()
    } else {
        tokens[0].text + joined_text(tokens.drop_first())
    }
}

/// The texts of the tokens from `start` on make up the rest of the text.
pub proof fn lemma_token_texts_rebuild_rest(text: Seq<char>, start: int)
    requires
        0 <= start <= text.len(),
    ensures
        joined_text(tokens_from(text, start)) == text.subrange(start, text.len() as int),
    decreases text.len() - start,
{
    lemma_scan_advances(text, start);
    let tokens = tokens_from(text, start);
    if start < text.len() {
        let end = token_end(text, start);
        lemma_token_texts_rebuild_rest(text, end);
        assert(tokens.drop_first() == tokens_from(text, end));
    } else {
        assert(joined_text(tokens.drop_first()) == Seq::<char>::empty());
    }
}

/// Lexing loses nothing: the texts of all the tokens of a text, whitespace and
/// the final empty `EndOfFile` included, put together give the text again.
pub proof fn lemma_token_texts_rebuild_text(text: Seq<char>)
    ensures
        joined_text(tokens_from(text, 0)) == text,
{
    lemma_token_texts_rebuild_rest(text, 0);
}

/// A cursor over a text that hands out one token per call of [`Lexer::next`].
pub struct Lexer {
    position: usize,
    length: usize,
    text: String,
}

impl Lexer {
    #[verifier::type_invariant]
    spec fn well_formed(self) -> bool {
        &&& self.length == self.text@.len()
        &&& self.position <= self.length
    }

    /// The text that is read.
    pub closed spec fn text(&self) -> Seq<char> {
        self.text@
    }

    /// The position of the cursor: how many characters have been consumed.
    pub closed spec fn position(&self) -> int {
        self.position as int
    }

    /// A lexer at the start of `text`.
    pub fn new(text: String) -> (lexer: Self)
        ensures
            lexer.text() == text@,
            lexer.position() == 0,
    {
        let length = text.as_str().unicode_len();
        Self { position: 0, length, text }
    }

    fn peek(&self, offset: usize) -> (c: char)
        ensures
            c == char_at(self.text(), self.position() + offset),
    {
        proof {
            use_type_invariant(self);
        }
        match self.position.checked_add(offset) {
            Some(index) => {
                if index < self.length {
                    self.text.as_str().get_char(index)
                } else {
                    '\0'
                }
            },
            None => '\0',
        }
    }

    fn current(&self) -> (c: char)
        ensures
            c == char_at(self.text(), self.position()),
    {
        self.peek(0)
    }

    /// Reads the token at the cursor and moves the cursor behind it. At the end
    /// of the text this is an empty `EndOfFile`, again at each further call.
    pub fn next(&mut self) -> (token: Token)
        ensures
            token@ == token_at(old(self).text(), old(self).position()),
            final(self).position() == token_end(old(self).text(), old(self).position()),
            final(self).text() == old(self).text(),
            0 <= old(self).position() <= final(self).position() <= old(self).text().len(),
    {
        proof {
            use_type_invariant(&*self);
            lemma_scan_advances(self.text@, self.position as int);
        }
        let ghost text = self.text@;
        let start = self.position;
        let first = self.current();
        let kind = if self.position >= self.length {
            TokenKind::EndOfFile
        } else if first.is_whitespace() {
            while self.position < self.length && self.current().is_whitespace()
                invariant
                    self.text@ == text,
                    self.length == text.len(),
                    start <= self.position <= self.length,
                    run_end(text, self.position as int, whitespace()) == run_end(
                        text,
                        start as int,
                        whitespace(),
                    ),
                decreases self.length - self.position,
            {
                self.position += 1;
            }
            TokenKind::Whitespace
        } else if first.is_numeric() {
            while self.position < self.length && self.current().is_numeric()
                invariant
                    self.text@ == text,
                    self.length == text.len(),
                    start <= self.position <= self.length,
                    run_end(text, self.position as int, numeric()) == run_end(
                        text,
                        start as int,
                        numeric(),
                    ),
                decreases self.length - self.position,
            {
                self.position += 1;
            }
            TokenKind::FloatLiteral
        } else if first == '+' {
            self.position += 1;
            TokenKind::Plus
        } else if first == '-' {
            self.position += 1;
            TokenKind::Minus
        } else if first == '*' {
            self.position += 1;
            TokenKind::Asterisk
        } else if first == '/' {
            self.position += 1;
            TokenKind::Slash
        } else if first == '(' {
            self.position += 1;
            TokenKind::LeftParenthesis
        } else if first == ')' {
            self.position += 1;
            TokenKind::RightParenthesis
        } else if first == '|' && self.peek(1) == '|' {
            self.position += 2;
            TokenKind::PipePipe
        } else if first == '&' && self.peek(1) == '&' {
            self.position += 2;
            TokenKind::AmpersandAmpersand
        } else if first.is_alphabetic() {
            while self.position < self.length && self.current().is_alphanumeric()
                invariant
                    self.text@ == text,
                    self.length == text.len(),
                    start <= self.position <= self.length,
                    run_end(text, self.position as int, alphanumeric()) == run_end(
                        text,
                        start as int,
                        alphanumeric(),
                    ),
                decreases self.length - self.position,
            {
                self.position += 1;
            }
            let word = self.text.as_str().substring_char(start, self.position);
            TokenKind::keyword(word)
        } else {
            self.position += 1;
            TokenKind::BadToken
        };
        let end = self.position;
        let text = self.text.as_str().substring_char(start, end).to_owned();
        Token { kind, text }
    }
}

} // verus!
