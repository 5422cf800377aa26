//! The lexical grammar: which token starts at a position of a text, and where
//! that token ends.
use crate::token::TokenView;
use vstd::prelude::*;

verus! {

/// Whether `c` has the Unicode property `Alphabetic`: the answer of
/// `char::is_alphabetic`.
pub uninterp spec fn unicode_alphabetic(c: char) -> bool;

/// `char::is_alphabetic` of the standard library. Its answer is a function of
/// the character alone; nothing more is claimed of it here.
pub assume_specification[ char::is_alphabetic ](c: char) -> (alphabetic: bool)
    ensures
        alphabetic == unicode_alphabetic(c),
;

/// Space, tab, line feed and carriage return separate tokens and are never
/// part of one.
pub open spec fn is_whitespace(c: char) -> bool {
    c == ' ' || c == '\t' || c == '\n' || c == '\r'
}

/// The ASCII digits.
pub open spec fn is_digit(c: char) -> bool {
    '0' <= c <= '9'
}

/// The characters that identifiers and keywords are made of: letters and the
/// underscore. Within ASCII the letters are `a` to `z` and `A` to `Z`; beyond
/// ASCII the Unicode property `Alphabetic` decides.
pub open spec fn is_letter(c: char) -> bool {
    ||| 'a' <= c <= 'z'
    ||| 'A' <= c <= 'Z'
    ||| c == '_'
    ||| (c > '\x7f' && unicode_alphabetic(c))
}

/// The classes of characters that the lexer consumes in runs.
#[derive(Clone, Copy)]
pub enum CharClass {
    Whitespace,
    Letter,
    Digit,
}

impl CharClass {
    /// Whether `c` belongs to the class.
    pub open spec fn contains(self, c: char) -> bool {
        match self {
            CharClass::Whitespace => is_whitespace(c),
            CharClass::Letter => is_letter(c),
            CharClass::Digit => is_digit(c),
        }
    }
}

/// Where the longest run of characters of `class` that starts at `start`
/// ends: the first position from `start` on that is past the text or holds a
/// character outside the class.
pub open spec fn run_end(text: Seq<char>, start: int, class: CharClass) -> int
    decreases text.len() - start,
{
    if 0 <= start < text.len() && class.contains(text[start]) {
        run_end(text, start + 1, class)
    } else {
        start
    }
}

/// The token of a punctuation character or one-character operator.
/// `=` and `!` are listed with the meaning they have on their own.
pub open spec fn symbol(c: char) -> Option<TokenView> {
    if c == '=' {
        Some(TokenView::Assign)
    } else if c == '+' {
        Some(TokenView::Plus)
    } else if c == '-' {
        Some(TokenView::Minus)
    } else if c == ',' {
        Some(TokenView::Comma)
    } else if c == '!' {
        Some(TokenView::Bang)
    } else if c == '*' {
        Some(TokenView::Asterisk)
    } else if c == '/' {
        Some(TokenView::Slash)
    } else if c == ';' {
        Some(TokenView::Semicolon)
    } else if c == '(' {
        Some(TokenView::LeftParen)
    } else if c == ')' {
        Some(TokenView::RightParen)
    } else if c == '{' {
        Some(TokenView::LeftBrace)
    } else if c == '}' {
        Some(TokenView::RightBrace)
    } else if c == '<' {
        Some(TokenView::LessThan)
    } else if c == '>' {
        Some(TokenView::GreaterThan)
    } else {
        None
    }
}

/// The keyword spelled by `word`, if it is one of the seven reserved words.
pub open spec fn keyword(word: Seq<char>) -> Option<TokenView> {
    if word == "fn"@ {
        Some(TokenView::Function)
    } else if word == "let"@ {
        Some(TokenView::Let)
    } else if word == "true"@ {
        Some(TokenView::True)
    } else if word == "false"@ {
        Some(TokenView::False)
    } else if word == "if"@ {
        Some(TokenView::If)
    } else if word == "else"@ {
        Some(TokenView::Else)
    } else if word == "return"@ {
        Some(TokenView::Return)
    } else {
        None
    }
}

/// The token of a run of letters: its keyword if it spells one, an
/// identifier with that very text otherwise.
pub open spec fn word_token(word: Seq<char>) -> TokenView {
    match keyword(word) {
        Some(token) => token,
        None => TokenView::Identifier(word),
    }
}

/// A token together with the position just behind it.
pub struct Lexeme {
    pub token: TokenView,
    pub end: int,
}

/// The token that a lexer standing at `pos` yields next, and where it stands
/// afterwards.
///
/// Whitespace is skipped first. At the end of the text the token is `Eof` and
/// the lexer stays at the end. `==` and `!=` take two characters, every other
/// operator one; a letter starts the longest run of letters, a digit the
/// longest run of digits; any other character is `Illegal` on its own.
pub open spec fn lex_at(text: Seq<char>, pos: int) -> Lexeme {
    let start = run_end(text, pos, CharClass::Whitespace);
    if !(0 <= start < text.len()) {
        Lexeme { token: TokenView::Eof, end: start }
    } else {
        let c = text[start];
        let doubled = start + 1 < text.len() && text[start + 1] == '=';
        if c == '=' && doubled {
            Lexeme { token: TokenView::Equal, end: start + 2 }
        } else if c == '!' && doubled {
            Lexeme { token: TokenView::NotEqual, end: start + 2 }
        } else if let Some(token) = symbol(c) {
            Lexeme { token, end: start + 1 }
        } else if is_letter(c) {
            let end = run_end(text, start, CharClass::Letter);
            Lexeme { token: word_token(text.subrange(start, end)), end }
        } else if is_digit(c) {
            let end = run_end(text, start, CharClass::Digit);
            Lexeme { token: TokenView::Integer(text.subrange(start, end)), end }
        } else {
            Lexeme { token: TokenView::Illegal, end: start + 1 }
        }
    }
}

/// A run ends between its start and the end of the text, holds only
/// characters of its class, and cannot be extended.
pub proof fn lemma_run_end(text: Seq<char>, start: int, class: CharClass)
    requires
        0 <= start <= text.len(),
    ensures
        start <= run_end(text, start, class) <= text.len(),
        forall|i: int| start <= i < run_end(text, start, class) ==> class.contains(#[trigger] text[i]),
        run_end(text, start, class) < text.len() ==> !class.contains(
            text[run_end(text, start, class)],
        ),
    decreases text.len() - start,
{
    if start < text.len() && class.contains(text[start]) {
        lemma_run_end(text, start + 1, class);
    }
}

/// A position is the end of the run from `start` as soon as everything
/// between the two is in the class and the run cannot go on from there.
pub proof fn lemma_run_end_unique(text: Seq<char>, start: int, end: int, class: CharClass)
    requires
        0 <= start <= end <= text.len(),
        forall|i: int| start <= i < end ==> class.contains(#[trigger] text[i]),
        end < text.len() ==> !class.contains(text[end]),
    ensures
        run_end(text, start, class) == end,
    decreases end - start,
{
    if start < end {
        lemma_run_end_unique(text, start + 1, end, class);
    }
}

/// Lexing moves forward, never past the end of the text; it stands still
/// only where it yields `Eof`, and it yields `Eof` only at the end.
pub proof fn lemma_lex_advances(text: Seq<char>, pos: int)
    requires
        0 <= pos <= text.len(),
    ensures
        pos <= lex_at(text, pos).end <= text.len(),
        lex_at(text, pos).token != TokenView::Eof ==> pos < lex_at(text, pos).end,
        lex_at(text, pos).token == TokenView::Eof ==> lex_at(text, pos).end == text.len(),
{
    let start = run_end(text, pos, CharClass::Whitespace);
    lemma_run_end(text, pos, CharClass::Whitespace);
    if start < text.len() {
        lemma_run_end(text, start, CharClass::Letter);
        lemma_run_end(text, start, CharClass::Digit);
    }
}

/// Once the lexer has yielded `Eof` it yields `Eof` again, from the same
/// place, however often it is asked.
pub proof fn lemma_eof_stays(text: Seq<char>, pos: int)
    requires
        0 <= pos <= text.len(),
        lex_at(text, pos).token == TokenView::Eof,
    ensures
        lex_at(text, lex_at(text, pos).end) == lex_at(text, pos),
        lex_at(text, pos).end == text.len(),
{
    lemma_lex_advances(text, pos);
}

/// The tokens that a lexer standing at `pos` yields, one call after the
/// other, up to the end of the text. `Eof`, which it yields from then on, is
/// not among them.
pub open spec fn token_stream(text: Seq<char>, pos: int) -> Seq<TokenView>
    decreases text.len() - pos,
{
    let lexeme = lex_at(text, pos);
    if 0 <= pos <= text.len() && lexeme.token != TokenView::Eof {
        proof {
            lemma_lex_advances(text, pos);
        }
        seq![lexeme.token] + token_stream(text, lexeme.end)
    } else {
        Seq::empty()
    }
}

/// The token at place `i` of a stream, which goes on with `Eof` for ever
/// after its last token.
pub open spec fn token_at(tokens: Seq<TokenView>, i: int) -> TokenView {
    if 0 <= i < tokens.len() {
        tokens[i]
    } else {
        TokenView::Eof
    }
}

/// What is left of a stream once its first token is taken; nothing is left
/// of an empty one.
pub open spec fn rest_of(tokens: Seq<TokenView>) -> Seq<TokenView> {
    if tokens.len() > 0 {
        tokens.drop_first()
    } else {
        tokens
    }
}

/// One call of the lexer takes the first token off the stream: it yields
/// that token, or `Eof` where the stream is empty, and the stream from where
/// it then stands is the rest.
pub proof fn lemma_token_stream_step(text: Seq<char>, pos: int)
    requires
        0 <= pos <= text.len(),
    ensures
        lex_at(text, pos).token == token_at(token_stream(text, pos), 0),
        token_stream(text, lex_at(text, pos).end) == rest_of(token_stream(text, pos)),
{
    let lexeme = lex_at(text, pos);
    lemma_lex_advances(text, pos);
    if lexeme.token == TokenView::Eof {
        lemma_eof_stays(text, pos);
    } else {
        assert(token_stream(text, lexeme.end) =~= rest_of(token_stream(text, pos)));
    }
}

/// Where a lexer that started at `pos` stands after `calls` calls.
pub open spec fn position_after(text: Seq<char>, pos: int, calls: nat) -> int
    decreases calls,
{
    if calls == 0 {
        pos
    } else {
        position_after(text, lex_at(text, pos).end, (calls - 1) as nat)
    }
}

/// Call after call the lexer yields the tokens of the stream, one each, and
/// `Eof` on every call after the last of them.
pub proof fn lemma_nth_token(text: Seq<char>, pos: int, calls: nat)
    requires
        0 <= pos <= text.len(),
    ensures
        0 <= position_after(text, pos, calls) <= text.len(),
        lex_at(text, position_after(text, pos, calls)).token == token_at(
            token_stream(text, pos),
            calls as int,
        ),
    decreases calls,
{
    lemma_lex_advances(text, pos);
    lemma_token_stream_step(text, pos);
    if calls > 0 {
        lemma_nth_token(text, lex_at(text, pos).end, (calls - 1) as nat);
    }
}

/// No token of a stream is `Eof`.
pub proof fn lemma_token_stream_has_no_eof(text: Seq<char>, pos: int)
    ensures
        forall|i: int|
            0 <= i < token_stream(text, pos).len() ==> #[trigger] token_stream(text, pos)[i]
                != TokenView::Eof,
    decreases text.len() - pos,
{
    let lexeme = lex_at(text, pos);
    if 0 <= pos <= text.len() && lexeme.token != TokenView::Eof {
        lemma_lex_advances(text, pos);
        lemma_token_stream_has_no_eof(text, lexeme.end);
    }
}

/// No character is in two of the classes, and none of a class is a
/// punctuation character or an operator.
pub proof fn lemma_classes_disjoint(c: char)
    ensures
        !(is_letter(c) && is_digit(c)),
        !(is_letter(c) && is_whitespace(c)),
        !(is_digit(c) && is_whitespace(c)),
        is_letter(c) || is_digit(c) || is_whitespace(c) ==> symbol(c) is None,
{
}

/// Each of the seven reserved words is its keyword, and every other word is
/// an identifier that keeps the word as its text.
pub proof fn lemma_word_token(word: Seq<char>)
    ensures
        word == "fn"@ ==> word_token(word) == TokenView::Function,
        word == "let"@ ==> word_token(word) == TokenView::Let,
        word == "true"@ ==> word_token(word) == TokenView::True,
        word == "false"@ ==> word_token(word) == TokenView::False,
        word == "if"@ ==> word_token(word) == TokenView::If,
        word == "else"@ ==> word_token(word) == TokenView::Else,
        word == "return"@ ==> word_token(word) == TokenView::Return,
        word != "fn"@ && word != "let"@ && word != "true"@ && word != "false"@ && word != "if"@
            && word != "else"@ && word != "return"@ ==> word_token(word) == TokenView::Identifier(
            word,
        ),
{
    reveal_strlit("fn");
    reveal_strlit("let");
    reveal_strlit("true");
    reveal_strlit("false");
    reveal_strlit("if");
    reveal_strlit("else");
    reveal_strlit("return");
    if word.len() == 2 {
        assert("fn"@[0] != "if"@[0]);
    } else if word.len() == 4 {
        assert("true"@[0] != "else"@[0]);
    }
}

/// The character behind place `pos` is `=`.
pub open spec fn equals_follows(text: Seq<char>, pos: int) -> bool {
    pos + 1 < text.len() && text[pos + 1] == '='
}

/// `=` and `!` make one token with a `=` that follows them directly, and are
/// a token on their own before anything else and at the end of the text.
pub proof fn lemma_doubled_operators(text: Seq<char>, pos: int)
    requires
        0 <= pos < text.len(),
    ensures
        text[pos] == '=' && equals_follows(text, pos) ==> lex_at(text, pos) == (Lexeme {
            token: TokenView::Equal,
            end: pos + 2,
        }),
        text[pos] == '=' && !equals_follows(text, pos) ==> lex_at(text, pos) == (Lexeme {
            token: TokenView::Assign,
            end: pos + 1,
        }),
        text[pos] == '!' && equals_follows(text, pos) ==> lex_at(text, pos) == (Lexeme {
            token: TokenView::NotEqual,
            end: pos + 2,
        }),
        text[pos] == '!' && !equals_follows(text, pos) ==> lex_at(text, pos) == (Lexeme {
            token: TokenView::Bang,
            end: pos + 1,
        }),
{
    if text[pos] == '=' || text[pos] == '!' {
        assert(run_end(text, pos, CharClass::Whitespace) == pos);
    }
}

/// A text that starts with a letter or an underscore starts with a word: the
/// first token is the token of the longest run of letters from the start,
/// whatever follows the run.
pub proof fn lemma_word_lexes_whole(text: Seq<char>)
    requires
        text.len() > 0,
        is_letter(text[0]),
    ensures
        0 < run_end(text, 0, CharClass::Letter) <= text.len(),
        lex_at(text, 0) == (Lexeme {
            token: word_token(text.subrange(0, run_end(text, 0, CharClass::Letter))),
            end: run_end(text, 0, CharClass::Letter),
        }),
{
    lemma_classes_disjoint(text[0]);
    lemma_run_end(text, 0, CharClass::Letter);
    assert(run_end(text, 0, CharClass::Whitespace) == 0);
}

/// The characters of `run` all belong to `class`, there is one of them at
/// least, they stand in `text` directly in front of `end`, and no character
/// of the class follows them.
pub open spec fn is_whole_run(text: Seq<char>, run: Seq<char>, end: int, class: CharClass) -> bool {
    &&& 0 < run.len() <= end <= text.len()
    &&& run == text.subrange(end - run.len(), end)
    &&& forall|i: int| 0 <= i < run.len() ==> class.contains(#[trigger] run[i])
    &&& end < text.len() ==> !class.contains(text[end])
}

/// Runs of digits and runs of letters do not mix. The text of an integer is
/// one digit or more and nothing but digits, and no digit follows it; the
/// text of an identifier is one letter or more and nothing but letters, and
/// no letter follows it.
pub proof fn lemma_runs_do_not_mix(text: Seq<char>, pos: int)
    requires
        0 <= pos <= text.len(),
    ensures
        lex_at(text, pos).token matches TokenView::Integer(run) ==> is_whole_run(
            text,
            run,
            lex_at(text, pos).end,
            CharClass::Digit,
        ),
        lex_at(text, pos).token matches TokenView::Identifier(run) ==> is_whole_run(
            text,
            run,
            lex_at(text, pos).end,
            CharClass::Letter,
        ),
{
    let start = run_end(text, pos, CharClass::Whitespace);
    lemma_run_end(text, pos, CharClass::Whitespace);
    if start < text.len() {
        lemma_run_end(text, start, CharClass::Letter);
        lemma_run_end(text, start, CharClass::Digit);
    }
}

/// Every character of `text` is a punctuation character or a one-character
/// operator, and no `=` stands directly behind a `=` or a `!`, with which it
/// would make one token of two characters.
pub open spec fn lexes_one_by_one(text: Seq<char>) -> bool {
    &&& forall|i: int| 0 <= i < text.len() ==> symbol(#[trigger] text[i]) is Some
    &&& forall|i: int|
        0 <= i && i + 1 < text.len() && text[i + 1] == '=' ==> #[trigger] text[i] != '=' && text[i]
            != '!'
}

/// A text made of punctuation and one-character operators, such as
/// `=+(){},;`, in which no `=` follows a `=` or a `!`, lexes character by
/// character: call after call the lexer yields the token of the next
/// character, and `Eof` on every call after the last character.
pub proof fn lemma_symbols_lex_one_by_one(text: Seq<char>)
    requires
        lexes_one_by_one(text),
    ensures
        token_stream(text, 0) == text.map_values(|c: char| symbol(c).unwrap()),
        forall|calls: nat|
            calls < text.len() ==> lex_at(text, #[trigger] position_after(text, 0, calls)).token
                == symbol(text[calls as int]).unwrap(),
        forall|calls: nat|
            calls >= text.len() ==> lex_at(text, #[trigger] position_after(text, 0, calls)).token
                == TokenView::Eof,
{
    lemma_symbols_from(text, 0);
    assert(text.skip(0) =~= text);
    assert forall|calls: nat|
        lex_at(text, #[trigger] position_after(text, 0, calls)).token == token_at(
            token_stream(text, 0),
            calls as int,
        ) by {
        lemma_nth_token(text, 0, calls);
    }
}

proof fn lemma_symbols_from(text: Seq<char>, pos: int)
    requires
        lexes_one_by_one(text),
        0 <= pos <= text.len(),
    ensures
        token_stream(text, pos) == text.skip(pos).map_values(|c: char| symbol(c).unwrap()),
    decreases text.len() - pos,
{
    let tokens = text.skip(pos).map_values(|c: char| symbol(c).unwrap());
    if pos < text.len() {
        lemma_classes_disjoint(text[pos]);
        assert(symbol(text[pos]) is Some);
        assert(run_end(text, pos, CharClass::Whitespace) == pos);
        assert(lex_at(text, pos) == Lexeme { token: symbol(text[pos]).unwrap(), end: pos + 1 });
        lemma_symbols_from(text, pos + 1);
        assert(text.skip(pos + 1) =~= text.skip(pos).drop_first());
        assert(token_stream(text, pos) =~= tokens);
    } else {
        assert(token_stream(text, pos) =~= tokens);
    }
}

} // verus!
