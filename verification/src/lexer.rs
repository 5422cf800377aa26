//! The lexer: a cursor over the source text that yields one token per call.
use crate::lexical::{is_digit, is_letter, lex_at, run_end, token_stream, word_token, CharClass, Lexeme};
use crate::lexical::{lemma_lex_advances, lemma_run_end, lemma_token_stream_step};
use crate::token::{token_views, Token};
use vstd::prelude::*;
use vstd::string::StrSliceExecFns;

verus! {

/// `String::push` of the standard library: the character is appended to the
/// end of the string.
pub assume_specification[ String::push ](text: &mut String, ch: char)
    ensures
        final(text)@ == old(text)@.push(ch),
;

/// A lexer over a source text.
///
/// It holds the text, the position of the character under the cursor, the
/// position that will be read next, and the character under the cursor,
/// which is absent once the cursor has reached the end of the text.
pub struct Lexer {
    input: Vec<char>,
    position: usize,
    read_position: usize,
    ch: Option<char>,
}

/// What a [`Lexer`] stands for: a text and a cursor into it.
pub struct LexerView {
    pub text: Seq<char>,
    pub position: int,
}

impl LexerView {
    /// The character under the cursor, if the cursor is not at the end.
    pub open spec fn current(self) -> Option<char> {
        if 0 <= self.position < self.text.len() {
            Some(self.text[self.position])
        } else {
            None
        }
    }

    /// The character one place behind the cursor, if there is one.
    pub open spec fn lookahead(self) -> Option<char> {
        if 0 <= self.position + 1 < self.text.len() {
            Some(self.text[self.position + 1])
        } else {
            None
        }
    }

    /// The same text with the cursor at `position`.
    pub open spec fn at(self, position: int) -> LexerView {
        LexerView { text: self.text, position }
    }

    /// The cursor moved on by one character; at the end it stays where it is.
    pub open spec fn step(self) -> LexerView {
        if self.position < self.text.len() {
            self.at(self.position + 1)
        } else {
            self
        }
    }
}

impl View for Lexer {
    type V = LexerView;

    closed spec fn view(&self) -> LexerView {
        LexerView { text: self.input@, position: self.position as int }
    }
}

/// The characters of a string, in order.
fn characters(input: &str) -> (chars: Vec<char>)
    ensures
        chars@ == input@,
{
    let mut chars: Vec<char> = Vec::new();
    for c in iter: input.chars()
        invariant
            iter.seq() == input@,
            chars@ == iter.seq().take(iter.index() as int),
    {
        chars.push(c);
    }
    chars
}

/// Whether `word`, which has `len` characters, is spelled like `keyword`.
fn spells(word: &str, len: usize, keyword: &str) -> (same: bool)
    requires
        len == word@.len(),
    ensures
        same == (word@ == keyword@),
{
    if keyword.unicode_len() != len {
        return false;
    }
    let mut i: usize = 0;
    while i < len
        invariant
            i <= len,
            len == word@.len(),
            len == keyword@.len(),
            forall|j: int| 0 <= j < i ==> word@[j] == keyword@[j],
        decreases len - i,
    {
        if word.get_char(i) != keyword.get_char(i) {
            return false;
        }
        i += 1;
    }
    assert(word@ =~= keyword@);
    true
}

/// The token of a run of letters that has `len` characters.
fn classify(word: String, len: usize) -> (token: Token)
    requires
        len == word@.len(),
    ensures
        token@ == word_token(word@),
{
    let text = word.as_str();
    if spells(text, len, "fn") {
        Token::Function
    } else if spells(text, len, "let") {
        Token::Let
    } else if spells(text, len, "true") {
        Token::True
    } else if spells(text, len, "false") {
        Token::False
    } else if spells(text, len, "if") {
        Token::If
    } else if spells(text, len, "else") {
        Token::Else
    } else if spells(text, len, "return") {
        Token::Return
    } else {
        Token::Identifier(word)
    }
}

impl Lexer {
    /// The character on record is the one under the cursor, and the read
    /// position is one ahead of the cursor, or with it at the end of the
    /// text.
    pub closed spec fn in_step(&self) -> bool {
        &&& self.ch == self@.current()
        &&& self.read_position == self@.step().position
    }

    /// The cursor is inside the text or at its end, and the rest of the
    /// state goes with it.
    pub open spec fn wf(&self) -> bool {
        0 <= self@.position <= self@.text.len() && self.in_step()
    }

    /// A lexer at the start of `input`.
    pub fn new(input: String) -> (lexer: Self)
        ensures
            lexer.wf(),
            lexer@ == (LexerView { text: input@, position: 0 }),
    {
        let input = characters(input.as_str());
        let ch = if input.len() > 0 {
            Some(input[0])
        } else {
            None
        };
        let read_position: usize = if input.len() > 0 {
            1
        } else {
            0
        };
        Lexer { input, position: 0, read_position, ch }
    }

    /// Moves the cursor on by one character and takes up the character it
    /// then stands on. At the end of the text the cursor stays where it is
    /// and no character is under it.
    pub fn read_char(&mut self)
        requires
            old(self).wf(),
        ensures
            final(self).wf(),
            final(self)@ == old(self)@.step(),
    {
        if self.read_position >= self.input.len() {
            self.ch = None;
            self.position = self.input.len();
        } else {
            self.ch = Some(self.input[self.read_position]);
            self.position = self.read_position;
            self.read_position += 1;
        }
    }

    /// The character one place behind the cursor, which is not moved.
    pub fn peek_char(&mut self) -> (next: Option<char>)
        requires
            old(self).wf(),
        ensures
            *final(self) == *old(self),
            next == old(self)@.lookahead(),
    {
        if self.read_position >= self.input.len() {
            None
        } else {
            Some(self.input[self.read_position])
        }
    }

    /// Whether `ch` may stand in an identifier: a letter or the underscore.
    /// The ASCII letters are told by comparison; the standard library is
    /// asked about the characters beyond ASCII only.
    pub fn is_letter(ch: char) -> (letter: bool)
        ensures
            letter == is_letter(ch),
    {
        ('a' <= ch && ch <= 'z') || ('A' <= ch && ch <= 'Z') || ch == '_' || (ch > '\x7f'
            && ch.is_alphabetic())
    }

    /// Whether `ch` is an ASCII digit.
    pub fn is_digit(ch: char) -> (digit: bool)
        ensures
            digit == is_digit(ch),
    {
        '0' <= ch && ch <= '9'
    }

    /// Whether `ch` belongs to `class`.
    fn in_class(class: CharClass, ch: char) -> (inside: bool)
        ensures
            inside == class.contains(ch),
    {
        match class {
            CharClass::Whitespace => ch == ' ' || ch == '\t' || ch == '\n' || ch == '\r',
            CharClass::Letter => Self::is_letter(ch),
            CharClass::Digit => Self::is_digit(ch),
        }
    }

    /// Reads the longest run of characters of `class` that starts under the
    /// cursor, and leaves the cursor behind it.
    fn read_run(&mut self, class: CharClass) -> (run: String)
        requires
            old(self).wf(),
        ensures
            final(self).wf(),
            final(self)@ == old(self)@.at(run_end(old(self)@.text, old(self)@.position, class)),
            run@ == old(self)@.text.subrange(old(self)@.position, final(self)@.position),
    {
        let mut run = String::new();
        loop
            invariant
                self.wf(),
                self@.text == old(self)@.text,
                old(self)@.position <= self@.position <= self@.text.len(),
                run_end(self@.text, self@.position, class) == run_end(
                    self@.text,
                    old(self)@.position,
                    class,
                ),
                run@ == self@.text.subrange(old(self)@.position, self@.position),
            ensures
                self@.position == run_end(self@.text, old(self)@.position, class),
            decreases self@.text.len() - self@.position,
        {
            let ch = match self.ch {
                Some(ch) if Self::in_class(class, ch) => ch,
                _ => break ,
            };
            run.push(ch);
            self.read_char();
            assert(run@ =~= self@.text.subrange(old(self)@.position, self@.position));
        }
        run
    }

    /// Reads the longest run of letters and underscores that starts under
    /// the cursor and returns its text; the cursor is left behind the run.
    pub fn read_identifier(&mut self) -> (word: String)
        requires
            old(self).wf(),
        ensures
            final(self).wf(),
            final(self)@ == old(self)@.at(
                run_end(old(self)@.text, old(self)@.position, CharClass::Letter),
            ),
            word@ == old(self)@.text.subrange(old(self)@.position, final(self)@.position),
    {
        self.read_run(CharClass::Letter)
    }

    /// Reads the longest run of digits that starts under the cursor and
    /// returns them as written; the cursor is left behind the run.
    pub fn read_number(&mut self) -> (digits: String)
        requires
            old(self).wf(),
        ensures
            final(self).wf(),
            final(self)@ == old(self)@.at(
                run_end(old(self)@.text, old(self)@.position, CharClass::Digit),
            ),
            digits@ == old(self)@.text.subrange(old(self)@.position, final(self)@.position),
    {
        self.read_run(CharClass::Digit)
    }

    /// Moves the cursor over the longest run of whitespace that starts
    /// under it.
    pub fn skip_whitespace(&mut self)
        requires
            old(self).wf(),
        ensures
            final(self).wf(),
            final(self)@ == old(self)@.at(
                run_end(old(self)@.text, old(self)@.position, CharClass::Whitespace),
            ),
    {
        while self.ch == Some(' ') || self.ch == Some('\t') || self.ch == Some('\n') || self.ch
            == Some('\r')
            invariant
                self.wf(),
                self@.text == old(self)@.text,
                old(self)@.position <= self@.position <= self@.text.len(),
                run_end(self@.text, self@.position, CharClass::Whitespace) == run_end(
                    self@.text,
                    old(self)@.position,
                    CharClass::Whitespace,
                ),
            decreases self@.text.len() - self@.position,
        {
            self.read_char();
        }
    }

    /// Moves the cursor on by one character and hands `token` back.
    pub fn consume_token(&mut self, token: Token) -> (same: Token)
        requires
            old(self).wf(),
        ensures
            final(self).wf(),
            final(self)@ == old(self)@.step(),
            same == token,
    {
        self.read_char();
        token
    }

    /// Yields the next token and leaves the cursor just behind it.
    ///
    /// At the end of the text the token is `Eof`, and so it is on every
    /// later call.
    pub fn next_token(&mut self) -> (token: Token)
        requires
            old(self).wf(),
        ensures
            final(self).wf(),
            final(self)@.text == old(self)@.text,
            (Lexeme { token: token@, end: final(self)@.position }) == lex_at(
                old(self)@.text,
                old(self)@.position,
            ),
    {
        proof {
            lemma_run_end(old(self)@.text, old(self)@.position, CharClass::Whitespace);
        }
        self.skip_whitespace();
        match self.ch {
            Some('=') => match self.peek_char() {
                Some('=') => {
                    self.read_char();
                    self.consume_token(Token::Equal)
                },
                _ => self.consume_token(Token::Assign),
            },
            Some('+') => self.consume_token(Token::Plus),
            Some('-') => self.consume_token(Token::Minus),
            Some(',') => self.consume_token(Token::Comma),
            Some('!') => match self.peek_char() {
                Some('=') => {
                    self.read_char();
                    self.consume_token(Token::NotEqual)
                },
                _ => self.consume_token(Token::Bang),
            },
            Some('*') => self.consume_token(Token::Asterisk),
            Some('/') => self.consume_token(Token::Slash),
            Some(';') => self.consume_token(Token::Semicolon),
            Some('(') => self.consume_token(Token::LeftParen),
            Some(')') => self.consume_token(Token::RightParen),
            Some('{') => self.consume_token(Token::LeftBrace),
            Some('}') => self.consume_token(Token::RightBrace),
            Some('<') => self.consume_token(Token::LessThan),
            Some('>') => self.consume_token(Token::GreaterThan),
            Some(ch) => {
                if Self::is_letter(ch) {
                    let start: usize = self.position;
                    let word = self.read_identifier();
                    proof {
                        lemma_run_end(self@.text, start as int, CharClass::Letter);
                    }
                    classify(word, self.position - start)
                } else if Self::is_digit(ch) {
                    Token::Integer(self.read_number())
                } else {
                    self.consume_token(Token::Illegal)
                }
            },
            None => self.consume_token(Token::Eof),
        }
    }
}

/// The tokens of `input` in order, up to the end of the text; `Eof` is not
/// among them.
pub fn tokenize(input: String) -> (tokens: Vec<Token>)
    ensures
        token_views(tokens@) == token_stream(input@, 0),
{
    let mut lexer = Lexer::new(input);
    let mut tokens: Vec<Token> = Vec::new();
    let ghost text = lexer@.text;
    proof {
        assert(token_views(tokens@) + token_stream(text, 0) =~= token_stream(text, 0));
    }
    loop
        invariant
            lexer.wf(),
            lexer@.text == text,
            0 <= lexer@.position <= text.len(),
            token_views(tokens@) + token_stream(text, lexer@.position) == token_stream(text, 0),
        ensures
            token_views(tokens@) == token_stream(text, 0),
        decreases text.len() - lexer@.position,
    {
        let ghost pos = lexer@.position;
        let ghost seen = token_views(tokens@);
        proof {
            lemma_lex_advances(text, pos);
            lemma_token_stream_step(text, pos);
        }
        let token = lexer.next_token();
        if token == Token::Eof {
            assert(seen + token_stream(text, pos) =~= seen);
            break ;
        }
        tokens.push(token);
        proof {
            assert(token_views(tokens@) =~= seen.push(token@));
            assert(seen + token_stream(text, pos) =~= seen.push(token@) + token_stream(
                text,
                lexer@.position,
            ));
        }
    }
    tokens
}

} // verus!
