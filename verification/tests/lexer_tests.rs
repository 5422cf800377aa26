use script_syntax::lexer::{tokenize, Lexer};
use script_syntax::token::Token;

fn ident(text: &str) -> Token {
    Token::Identifier(text.to_string())
}

fn integer(text: &str) -> Token {
    Token::Integer(text.to_string())
}

fn lex(input: &str) -> Vec<Token> {
    tokenize(input.to_string())
}

#[test]
fn test_next_token_simple_symbols() {
    let mut tokens = vec![];
    let mut lexer = Lexer::new(String::from("=+(){},;"));

    let mut token = lexer.next_token();

    while token != Token::Eof {
        tokens.push(token);
        token = lexer.next_token();
    }

    assert_eq!(
        tokens,
        vec![
            Token::Assign,
            Token::Plus,
            Token::LeftParen,
            Token::RightParen,
            Token::LeftBrace,
            Token::RightBrace,
            Token::Comma,
            Token::Semicolon,
        ]
    );
}

#[test]
fn simple_symbols_are_followed_by_eof_for_ever() {
    let mut lexer = Lexer::new(String::from("=+(){},;"));
    for _ in 0..8 {
        assert_ne!(lexer.next_token(), Token::Eof);
    }
    for _ in 0..5 {
        assert_eq!(lexer.next_token(), Token::Eof);
    }
}

#[test]
fn empty_input_is_eof_at_once() {
    let mut lexer = Lexer::new(String::new());
    assert_eq!(lexer.next_token(), Token::Eof);
    assert_eq!(lexer.next_token(), Token::Eof);
    assert_eq!(lex(""), vec![]);
}

#[test]
fn whitespace_only_input_has_no_token() {
    assert_eq!(lex(" \t\n\r  "), vec![]);
}

#[test]
fn every_one_character_operator_has_its_token() {
    assert_eq!(
        lex("= + - , ! * / ; ( ) { } < >"),
        vec![
            Token::Assign,
            Token::Plus,
            Token::Minus,
            Token::Comma,
            Token::Bang,
            Token::Asterisk,
            Token::Slash,
            Token::Semicolon,
            Token::LeftParen,
            Token::RightParen,
            Token::LeftBrace,
            Token::RightBrace,
            Token::LessThan,
            Token::GreaterThan,
        ]
    );
}

#[test]
fn keywords_are_not_identifiers() {
    assert_eq!(lex("fn"), vec![Token::Function]);
    assert_eq!(lex("let"), vec![Token::Let]);
    assert_eq!(lex("true"), vec![Token::True]);
    assert_eq!(lex("false"), vec![Token::False]);
    assert_eq!(lex("if"), vec![Token::If]);
    assert_eq!(lex("else"), vec![Token::Else]);
    assert_eq!(lex("return"), vec![Token::Return]);
}

#[test]
fn other_words_are_identifiers_with_the_whole_run() {
    assert_eq!(lex("foobar"), vec![ident("foobar")]);
    assert_eq!(lex("_tmp"), vec![ident("_tmp")]);
    assert_eq!(lex("snake_case_name"), vec![ident("snake_case_name")]);
    assert_eq!(lex("Upper"), vec![ident("Upper")]);
    assert_eq!(lex("x1"), vec![ident("x"), integer("1")]);
}

#[test]
fn words_that_only_resemble_keywords_are_identifiers() {
    assert_eq!(lex("lets"), vec![ident("lets")]);
    assert_eq!(lex("le"), vec![ident("le")]);
    assert_eq!(lex("Let"), vec![ident("Let")]);
    assert_eq!(lex("fnn"), vec![ident("fnn")]);
    assert_eq!(lex("iff"), vec![ident("iff")]);
    assert_eq!(lex("fi"), vec![ident("fi")]);
    assert_eq!(lex("elsa"), vec![ident("elsa")]);
    assert_eq!(lex("retur"), vec![ident("retur")]);
    assert_eq!(lex("returns"), vec![ident("returns")]);
    assert_eq!(lex("truefalse"), vec![ident("truefalse")]);
    assert_eq!(lex("_let"), vec![ident("_let")]);
}

#[test]
fn equal_and_assign() {
    assert_eq!(lex("=="), vec![Token::Equal]);
    assert_eq!(lex("="), vec![Token::Assign]);
    assert_eq!(lex("==="), vec![Token::Equal, Token::Assign]);
    assert_eq!(lex("= ="), vec![Token::Assign, Token::Assign]);
}

#[test]
fn not_equal_and_bang() {
    assert_eq!(lex("!="), vec![Token::NotEqual]);
    assert_eq!(lex("!"), vec![Token::Bang]);
    assert_eq!(lex("!!="), vec![Token::Bang, Token::NotEqual]);
    assert_eq!(lex("! ="), vec![Token::Bang, Token::Assign]);
    assert_eq!(lex("!=="), vec![Token::NotEqual, Token::Assign]);
}

#[test]
fn two_character_operators_leave_the_cursor_behind_both_characters() {
    let mut lexer = Lexer::new(String::from("==+"));
    assert_eq!(lexer.next_token(), Token::Equal);
    assert_eq!(lexer.next_token(), Token::Plus);
    assert_eq!(lexer.next_token(), Token::Eof);
}

#[test]
fn digit_run_stops_at_a_letter() {
    assert_eq!(lex("12a"), vec![integer("12"), ident("a")]);
}

#[test]
fn letter_run_stops_at_a_digit() {
    assert_eq!(lex("abc123def"), vec![ident("abc"), integer("123"), ident("def")]);
}

#[test]
fn integers_keep_their_digits_as_written() {
    assert_eq!(lex("007"), vec![integer("007")]);
    assert_eq!(lex("838383"), vec![integer("838383")]);
    assert_eq!(
        lex("123456789012345678901234567890"),
        vec![integer("123456789012345678901234567890")]
    );
}

#[test]
fn unknown_characters_are_illegal_one_by_one() {
    assert_eq!(lex("@"), vec![Token::Illegal]);
    assert_eq!(lex("#"), vec![Token::Illegal]);
    assert_eq!(lex("@#"), vec![Token::Illegal, Token::Illegal]);
    assert_eq!(lex("a @ 1"), vec![ident("a"), Token::Illegal, integer("1")]);
    assert_eq!(lex("\"x\""), vec![Token::Illegal, ident("x"), Token::Illegal]);
}

#[test]
fn letters_beyond_ascii_belong_to_identifiers() {
    assert_eq!(lex("caf\u{e9}"), vec![ident("caf\u{e9}")]);
    assert_eq!(lex("\u{e9}t\u{e9} = 1"), vec![ident("\u{e9}t\u{e9}"), Token::Assign, integer("1")]);
    assert_eq!(lex("\u{4eac}"), vec![ident("\u{4eac}")]);
}

#[test]
fn other_characters_beyond_ascii_are_illegal() {
    assert_eq!(lex("\u{20ac}"), vec![Token::Illegal]);
    assert_eq!(lex("a\u{20ac}b"), vec![ident("a"), Token::Illegal, ident("b")]);
    assert_eq!(lex("\u{1f49d}"), vec![Token::Illegal]);
    assert_eq!(lex("\u{a0}"), vec![Token::Illegal]);
}

#[test]
fn digits_beyond_ascii_are_not_digits() {
    assert_eq!(lex("\u{663}"), vec![Token::Illegal]);
}

#[test]
fn is_letter_on_chosen_characters() {
    assert!(Lexer::is_letter('a'));
    assert!(Lexer::is_letter('z'));
    assert!(Lexer::is_letter('A'));
    assert!(Lexer::is_letter('Z'));
    assert!(Lexer::is_letter('_'));
    assert!(Lexer::is_letter('\u{e9}'));
    assert!(!Lexer::is_letter('0'));
    assert!(!Lexer::is_letter(' '));
    assert!(!Lexer::is_letter('@'));
    assert!(!Lexer::is_letter('['));
    assert!(!Lexer::is_letter('`'));
    assert!(!Lexer::is_letter('{'));
    assert!(!Lexer::is_letter('\u{7f}'));
    assert!(!Lexer::is_letter('\u{20ac}'));
}

#[test]
fn is_digit_on_chosen_characters() {
    assert!(Lexer::is_digit('0'));
    assert!(Lexer::is_digit('9'));
    assert!(!Lexer::is_digit('/'));
    assert!(!Lexer::is_digit(':'));
    assert!(!Lexer::is_digit('a'));
}

#[test]
fn read_char_and_peek_char_walk_the_text() {
    let mut lexer = Lexer::new(String::from("ab"));
    assert_eq!(lexer.peek_char(), Some('b'));
    assert_eq!(lexer.peek_char(), Some('b'));
    lexer.read_char();
    assert_eq!(lexer.peek_char(), None);
    assert_eq!(lexer.next_token(), Token::Identifier("b".to_string()));
    lexer.read_char();
    lexer.read_char();
    assert_eq!(lexer.peek_char(), None);
    assert_eq!(lexer.next_token(), Token::Eof);
}

#[test]
fn read_identifier_takes_the_run_under_the_cursor() {
    let mut lexer = Lexer::new(String::from("foo_bar+1"));
    assert_eq!(lexer.read_identifier(), "foo_bar");
    assert_eq!(lexer.read_identifier(), "");
    assert_eq!(lexer.next_token(), Token::Plus);
}

#[test]
fn read_number_takes_the_run_under_the_cursor() {
    let mut lexer = Lexer::new(String::from("42x"));
    assert_eq!(lexer.read_number(), "42");
    assert_eq!(lexer.read_number(), "");
    assert_eq!(lexer.read_identifier(), "x");
    assert_eq!(lexer.read_identifier(), "");
    assert_eq!(lexer.next_token(), Token::Eof);
}

#[test]
fn skip_whitespace_stops_at_the_first_other_character() {
    let mut lexer = Lexer::new(String::from(" \t\r\n x y"));
    lexer.skip_whitespace();
    assert_eq!(lexer.read_identifier(), "x");
    lexer.skip_whitespace();
    lexer.skip_whitespace();
    assert_eq!(lexer.read_identifier(), "y");
    lexer.skip_whitespace();
    assert_eq!(lexer.next_token(), Token::Eof);
}

#[test]
fn consume_token_moves_on_by_one_character() {
    let mut lexer = Lexer::new(String::from("ab"));
    assert_eq!(lexer.consume_token(Token::Plus), Token::Plus);
    assert_eq!(lexer.read_identifier(), "b");
    assert_eq!(lexer.consume_token(Token::Eof), Token::Eof);
    assert_eq!(lexer.next_token(), Token::Eof);
}

#[test]
fn tokens_of_function_definitions_and_calls() {
    let source = "let five = 5;
let ten = 10;

let add = fn(x, y) {
  x + y;
};

let result = add(five, ten);
";
    assert_eq!(
        lex(source),
        vec![
            Token::Let,
            ident("five"),
            Token::Assign,
            integer("5"),
            Token::Semicolon,
            Token::Let,
            ident("ten"),
            Token::Assign,
            integer("10"),
            Token::Semicolon,
            Token::Let,
            ident("add"),
            Token::Assign,
            Token::Function,
            Token::LeftParen,
            ident("x"),
            Token::Comma,
            ident("y"),
            Token::RightParen,
            Token::LeftBrace,
            ident("x"),
            Token::Plus,
            ident("y"),
            Token::Semicolon,
            Token::RightBrace,
            Token::Semicolon,
            Token::Let,
            ident("result"),
            Token::Assign,
            ident("add"),
            Token::LeftParen,
            ident("five"),
            Token::Comma,
            ident("ten"),
            Token::RightParen,
            Token::Semicolon,
        ]
    );
}

#[test]
fn tokens_of_operators_and_conditionals() {
    let source = "!-/*5;
5 < 10 > 5;

if (5 < 10) {
    return true;
} else {
    return false;
}

10 == 10;
10 != 9;
";
    assert_eq!(
        lex(source),
        vec![
            Token::Bang,
            Token::Minus,
            Token::Slash,
            Token::Asterisk,
            integer("5"),
            Token::Semicolon,
            integer("5"),
            Token::LessThan,
            integer("10"),
            Token::GreaterThan,
            integer("5"),
            Token::Semicolon,
            Token::If,
            Token::LeftParen,
            integer("5"),
            Token::LessThan,
            integer("10"),
            Token::RightParen,
            Token::LeftBrace,
            Token::Return,
            Token::True,
            Token::Semicolon,
            Token::RightBrace,
            Token::Else,
            Token::LeftBrace,
            Token::Return,
            Token::False,
            Token::Semicolon,
            Token::RightBrace,
            integer("10"),
            Token::Equal,
            integer("10"),
            Token::Semicolon,
            integer("10"),
            Token::NotEqual,
            integer("9"),
            Token::Semicolon,
        ]
    );
}

#[test]
fn tokenize_agrees_with_repeated_next_token() {
    let source = "let x = !5; @ fn(a) { a == 1 }";
    let mut lexer = Lexer::new(source.to_string());
    let mut tokens = vec![];
    loop {
        let token = lexer.next_token();
        if token == Token::Eof {
            break;
        }
        tokens.push(token);
    }
    assert_eq!(tokens, lex(source));
    assert_eq!(tokens.len(), 16);
}

#[test]
fn tokens_can_be_cloned_and_compared() {
    let tokens = vec![
        Token::Illegal,
        Token::Eof,
        ident("a"),
        integer("1"),
        Token::Assign,
        Token::Plus,
        Token::Comma,
        Token::Minus,
        Token::Bang,
        Token::Asterisk,
        Token::Slash,
        Token::Semicolon,
        Token::LeftParen,
        Token::RightParen,
        Token::LeftBrace,
        Token::RightBrace,
        Token::LessThan,
        Token::GreaterThan,
        Token::Function,
        Token::Let,
        Token::True,
        Token::False,
        Token::If,
        Token::Else,
        Token::Return,
        Token::Equal,
        Token::NotEqual,
    ];
    for (i, a) in tokens.iter().enumerate() {
        assert_eq!(a.clone(), *a);
        for (j, b) in tokens.iter().enumerate() {
            assert_eq!(a == b, i == j);
        }
    }
    assert_ne!(ident("a"), ident("b"));
    assert_ne!(integer("1"), integer("2"));
    assert_ne!(ident("1"), integer("1"));
    assert_eq!(ident("a").clone(), ident("a"));
}
