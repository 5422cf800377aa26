//! The parser: recursive descent over the tokens of a lexer, with one token
//! of lookahead and a list of the errors met on the way.
use crate::ast::{Node, NodeView, Program};
use crate::error::{error_views, ParserError, ParserErrorView, WrongToken};
use crate::grammar::{
    every_let_terminated, let_rule, let_terminated, produced, program, semicolon_from,
    statement_rule, wrong_token,
};
use crate::grammar::{
    lemma_semicolon_from, lemma_semicolon_from_skip, lemma_statement_rule_rest,
    lemma_terminated_suffix,
};
use crate::lexer::{tokenize, Lexer};
use crate::lexical::{rest_of, token_at, token_stream};
use crate::lexical::{lemma_token_stream_has_no_eof, lemma_token_stream_step};
use crate::token::{token_views, Token, TokenView};
use vstd::prelude::*;

verus! {

/// A parser over the tokens of a lexer.
///
/// It holds the lexer, the current token and the one behind it, which are
/// absent only until the parser has been primed, and the errors recorded so
/// far.
pub struct Parser {
    lexer: Lexer,
    errors: Vec<ParserError>,
    cur_token: Option<Token>,
    peek_token: Option<Token>,
}

/// What a [`Parser`] stands for: its two tokens of lookahead, the tokens
/// that its lexer has yet to yield, and the errors recorded so far.
pub struct ParserView {
    pub cur: Option<TokenView>,
    pub peek: Option<TokenView>,
    pub rest: Seq<TokenView>,
    pub errors: Seq<ParserErrorView>,
}

/// The value of a token that may be absent.
pub open spec fn optional_token(token: Option<Token>) -> Option<TokenView> {
    match token {
        Some(token) => Some(token@),
        None => None,
    }
}

/// The value of a node that may be absent.
pub open spec fn optional_node(node: Option<Node>) -> Option<NodeView> {
    match node {
        Some(node) => Some(node@),
        None => None,
    }
}

/// The stream that holds `token`, or nothing where the token is absent or
/// `Eof`.
pub open spec fn pending(token: Option<TokenView>) -> Seq<TokenView> {
    match token {
        Some(token) if token != TokenView::Eof => seq![token],
        _ => Seq::empty(),
    }
}

impl ParserView {
    /// Both tokens of lookahead are there.
    pub open spec fn primed(self) -> bool {
        self.cur is Some && self.peek is Some
    }

    /// The lookahead was filled in order, `Eof` is followed by `Eof` only,
    /// and no token that the lexer has yet to yield is `Eof`.
    pub open spec fn consistent(self) -> bool {
        &&& self.cur is Some ==> self.peek is Some
        &&& self.cur == Some(TokenView::Eof) ==> self.peek == Some(TokenView::Eof)
        &&& self.peek == Some(TokenView::Eof) ==> self.rest.len() == 0
        &&& forall|i: int| 0 <= i < self.rest.len() ==> #[trigger] self.rest[i] != TokenView::Eof
    }

    /// The stream of the tokens that are still to be consumed, the current
    /// one first.
    pub open spec fn upcoming(self) -> Seq<TokenView> {
        pending(self.cur) + pending(self.peek) + self.rest
    }

    /// The primed parser that has `tokens` to consume and `errors` on
    /// record.
    pub open spec fn over(tokens: Seq<TokenView>, errors: Seq<ParserErrorView>) -> ParserView {
        ParserView {
            cur: Some(token_at(tokens, 0)),
            peek: Some(token_at(tokens, 1)),
            rest: rest_of(rest_of(tokens)),
            errors,
        }
    }

    /// The parser after one token was consumed: the token behind the
    /// current one becomes the current one, and the lexer's next token, or
    /// `Eof`, takes its place.
    pub open spec fn advance(self) -> ParserView {
        ParserView {
            cur: self.peek,
            peek: Some(token_at(self.rest, 0)),
            rest: rest_of(self.rest),
            errors: self.errors,
        }
    }
}

/// A consistent primed parser is given by the tokens it has yet to consume
/// and the errors it has recorded.
pub proof fn lemma_over_upcoming(view: ParserView)
    requires
        view.primed(),
        view.consistent(),
    ensures
        view == ParserView::over(view.upcoming(), view.errors),
        forall|i: int|
            0 <= i < view.upcoming().len() ==> #[trigger] view.upcoming()[i] != TokenView::Eof,
{
    let tokens = view.upcoming();
    assert(view.rest =~= rest_of(rest_of(tokens)));
}

/// A parser over a stream without `Eof` is primed and consistent, and has
/// that stream to consume; consuming one token leaves it over the rest.
pub proof fn lemma_over(tokens: Seq<TokenView>, errors: Seq<ParserErrorView>)
    requires
        forall|i: int| 0 <= i < tokens.len() ==> #[trigger] tokens[i] != TokenView::Eof,
    ensures
        ParserView::over(tokens, errors).primed(),
        ParserView::over(tokens, errors).consistent(),
        ParserView::over(tokens, errors).upcoming() == tokens,
        ParserView::over(tokens, errors).advance() == ParserView::over(rest_of(tokens), errors),
{
    let view = ParserView::over(tokens, errors);
    assert(view.upcoming() =~= tokens);
    assert(view.advance().rest =~= rest_of(rest_of(rest_of(tokens))));
}

impl View for Parser {
    type V = ParserView;

    closed spec fn view(&self) -> ParserView {
        ParserView {
            cur: optional_token(self.cur_token),
            peek: optional_token(self.peek_token),
            rest: token_stream(self.lexer@.text, self.lexer@.position),
            errors: error_views(self.errors@),
        }
    }
}

impl Parser {
    /// The lexer is well formed.
    pub closed spec fn lexer_wf(&self) -> bool {
        self.lexer.wf()
    }

    /// The lexer is well formed and the lookahead is consistent with it.
    pub open spec fn wf(&self) -> bool {
        self.lexer_wf() && self@.consistent()
    }

    /// The errors recorded so far, in the order in which they were met.
    pub fn errors(&self) -> (errors: &Vec<ParserError>)
        ensures
            error_views(errors@) == self@.errors,
    {
        &self.errors
    }

    /// A parser over the tokens of `lexer`, primed by two advances so that
    /// the current token and the one behind it are there.
    pub fn new(lexer: Lexer) -> (parser: Self)
        requires
            lexer.wf(),
        ensures
            parser.wf(),
            parser@ == ParserView::over(
                token_stream(lexer@.text, lexer@.position),
                Seq::empty(),
            ),
    {
        let mut parser = Parser { lexer, cur_token: None, peek_token: None, errors: Vec::new() };
        proof {
            lemma_token_stream_has_no_eof(lexer@.text, lexer@.position);
            assert(parser@.errors =~= Seq::empty());
        }
        parser.next_token();
        parser.next_token();
        parser
    }

    /// Consumes one token: the token behind the current one becomes the
    /// current one, and the next token of the lexer takes its place.
    pub fn next_token(&mut self)
        requires
            old(self).wf(),
        ensures
            final(self).wf(),
            final(self)@ == old(self)@.advance(),
    {
        proof {
            lemma_token_stream_step(self.lexer@.text, self.lexer@.position);
        }
        self.cur_token = self.peek_token.take();
        self.peek_token = Some(self.lexer.next_token());
    }

    /// Consumes the token behind the current one if it equals `wanted`, and
    /// says whether it did. Nothing is consumed otherwise, and no error is
    /// recorded either way: that is left to the rule that asked.
    pub fn expect_peek(&mut self, wanted: &Token) -> (found: bool)
        requires
            old(self).wf(),
        ensures
            final(self).wf(),
            found == (old(self)@.peek == Some(wanted@)),
            found ==> final(self)@ == old(self)@.advance(),
            !found ==> final(self)@ == old(self)@,
    {
        let found = match &self.peek_token {
            Some(token) => *token == *wanted,
            None => false,
        };
        if found {
            self.next_token();
        }
        found
    }

    /// Records that `got` was found where another token was required.
    fn record_wrong_token(&mut self, got: Token)
        requires
            old(self).wf(),
        ensures
            final(self).wf(),
            final(self)@ == (ParserView {
                errors: old(self)@.errors.push(wrong_token(got@)),
                ..old(self)@
            }),
    {
        let wrong = WrongToken { expected: Token::Identifier(String::new()), got };
        self.errors.push(ParserError::WrongToken(wrong));
        assert(final(self)@.errors =~= old(self)@.errors.push(wrong_token(got@)));
    }

    /// A copy of the token behind the current one.
    fn peeked(&self) -> (got: Token)
        requires
            self@.peek is Some,
        ensures
            self@.peek == Some(got@),
    {
        match &self.peek_token {
            Some(token) => token.clone(),
            None => unreached(),
        }
    }

    /// Applies the rule for `let <identifier> = <anything> ;`.
    ///
    /// The rule never returns on a stream where it goes looking for a `;`
    /// and there is none; such a stream is not accepted.
    pub fn parse_let_statement(&mut self) -> (node: Option<Node>)
        requires
            old(self).wf(),
            old(self)@.primed(),
            let_terminated(old(self)@.upcoming()),
        ensures
            final(self).wf(),
            optional_node(node) == let_rule(old(self)@.upcoming()).node,
            final(self)@ == ParserView::over(
                let_rule(old(self)@.upcoming()).rest,
                old(self)@.errors + let_rule(old(self)@.upcoming()).errors,
            ),
    {
        let ghost tokens = self@.upcoming();
        let ghost errors = self@.errors;
        proof {
            lemma_over_upcoming(self@);
            lemma_over(tokens, errors);
        }
        let named = match &self.peek_token {
            Some(Token::Identifier(_)) => true,
            _ => false,
        };
        if !named {
            let got = self.peeked();
            self.record_wrong_token(got);
            assert(errors.push(wrong_token(got@)) =~= errors + let_rule(tokens).errors);
            return None;
        }
        self.next_token();
        let statement = Node::LetStatement(self.cur_token.clone());
        proof {
            assert(rest_of(tokens) =~= tokens.skip(1));
            lemma_over(tokens.skip(1), errors);
        }
        if !self.expect_peek(&Token::Assign) {
            let got = self.peeked();
            self.record_wrong_token(got);
            assert(errors.push(wrong_token(got@)) =~= errors + let_rule(tokens).errors);
            return None;
        }
        let ghost end = semicolon_from(tokens, 2);
        let ghost mut at: int = 2;
        proof {
            lemma_semicolon_from(tokens, 2);
            assert(rest_of(tokens.skip(1)) =~= tokens.skip(2));
            assert(errors =~= errors + let_rule(tokens).errors);
        }
        while self.cur_token != Some(Token::Semicolon)
            invariant
                self.wf(),
                2 <= at <= end < tokens.len(),
                end == semicolon_from(tokens, at),
                tokens[end] == TokenView::Semicolon,
                self@ == ParserView::over(tokens.skip(at), errors),
                forall|i: int| 0 <= i < tokens.len() ==> #[trigger] tokens[i] != TokenView::Eof,
            decreases end - at,
        {
            proof {
                assert(self@.cur == Some(tokens[at]));
                assert(tokens[at] != TokenView::Semicolon);
                lemma_over(tokens.skip(at), errors);
                assert(rest_of(tokens.skip(at)) =~= tokens.skip(at + 1));
                at = at + 1;
            }
            self.next_token();
        }
        Some(statement)
    }

    /// Applies the rule for a statement: the `let` rule where the current
    /// token is `let`; any other token yields no node and no error.
    pub fn parse_statement(&mut self) -> (node: Option<Node>)
        requires
            old(self).wf(),
            old(self)@.primed(),
            old(self)@.cur == Some(TokenView::Let) ==> let_terminated(old(self)@.upcoming()),
        ensures
            final(self).wf(),
            optional_node(node) == statement_rule(old(self)@.upcoming()).node,
            final(self)@ == ParserView::over(
                statement_rule(old(self)@.upcoming()).rest,
                old(self)@.errors + statement_rule(old(self)@.upcoming()).errors,
            ),
    {
        proof {
            lemma_over_upcoming(self@);
            assert(self@.errors =~= self@.errors + Seq::<ParserErrorView>::empty());
        }
        match self.cur_token {
            Some(Token::Let) => self.parse_let_statement(),
            _ => None,
        }
    }

    /// Parses the whole stream: statement after statement until the current
    /// token is `Eof`. The nodes come back in source order, and the errors
    /// met on the way are added to those on record. A program is returned
    /// in every case.
    ///
    /// Parsing never returns on a stream with a `let` that gets as far as
    /// its `=` and is not ended by a `;`; such a stream is not accepted.
    pub fn parse_program(&mut self) -> (parsed: Option<Program>)
        requires
            old(self).wf(),
            old(self)@.primed(),
            every_let_terminated(old(self)@.upcoming()),
        ensures
            final(self).wf(),
            parsed matches Some(tree) && tree@ == program(old(self)@.upcoming()).nodes,
            final(self)@ == ParserView::over(
                Seq::empty(),
                old(self)@.errors + program(old(self)@.upcoming()).errors,
            ),
    {
        let mut tree = Program { nodes: Vec::new() };
        let ghost all = self@.upcoming();
        let ghost before = self@.errors;
        let ghost mut tokens = all;
        proof {
            lemma_over_upcoming(self@);
            assert(tree@ =~= Seq::<NodeView>::empty());
            assert(program(all).nodes =~= tree@ + program(tokens).nodes);
        }
        while self.cur_token != Some(Token::Eof)
            invariant
                self.wf(),
                self@ == ParserView::over(tokens, self@.errors),
                forall|i: int| 0 <= i < tokens.len() ==> #[trigger] tokens[i] != TokenView::Eof,
                every_let_terminated(tokens),
                program(all).nodes == tree@ + program(tokens).nodes,
                before + program(all).errors == self@.errors + program(tokens).errors,
            decreases tokens.len(),
        {
            let ghost outcome = statement_rule(tokens);
            let ghost recorded = self@.errors;
            let ghost nodes = tree@;
            proof {
                lemma_over(tokens, recorded);
                assert(tokens.skip(0) =~= tokens);
                lemma_statement_rule_rest(tokens);
                let from = choose|from: int|
                    0 <= from <= tokens.len() && (from < tokens.len() || tokens.len() == 0)
                        && #[trigger] tokens.skip(from) == outcome.rest;
                lemma_terminated_suffix(tokens, from);
                lemma_over(outcome.rest, recorded + outcome.errors);
                assert(rest_of(outcome.rest) =~= tokens.skip(from + 1));
                lemma_terminated_suffix(tokens, from + 1);
            }
            let node = self.parse_statement();
            if let Some(n) = node {
                tree.nodes.push(n);
            }
            self.next_token();
            proof {
                let later = program(rest_of(outcome.rest));
                assert(tree@ =~= nodes + produced(outcome.node));
                assert(program(all).nodes =~= tree@ + later.nodes);
                assert(before + program(all).errors =~= self@.errors + later.errors);
                tokens = rest_of(outcome.rest);
            }
        }
        proof {
            assert(tokens =~= Seq::empty());
        }
        Some(tree)
    }
}

/// Whether every `let` of `tokens` that gets as far as its `=` is ended by a
/// `;`: whether parsing the tokens comes to an end.
pub fn lets_terminated(tokens: &Vec<Token>) -> (all: bool)
    ensures
        all == every_let_terminated(token_views(tokens@)),
{
    let ghost stream = token_views(tokens@);
    let mut i: usize = tokens.len();
    let mut ended = false;
    while i > 0
        invariant
            i <= tokens.len(),
            stream == token_views(tokens@),
            ended == (semicolon_from(stream, i as int) < stream.len()),
            forall|k: int|
                0 <= k < stream.len() && i <= k + 2 && stream[k] == TokenView::Let
                    ==> let_terminated(#[trigger] stream.skip(k)),
        decreases i,
    {
        i -= 1;
        if tokens[i] == Token::Semicolon {
            ended = true;
        }
        let head = i >= 2 && tokens[i] == Token::Assign && tokens[i - 2] == Token::Let && match
            &tokens[i - 1] {
            Token::Identifier(_) => true,
            _ => false,
        };
        proof {
            if i >= 2 {
                lemma_semicolon_from_skip(stream, i - 2, 2);
            }
        }
        if head && !ended {
            assert(!let_terminated(stream.skip(i - 2)));
            return false;
        }
    }
    true
}

/// Parses `input` from start to end where that comes to an end, and
/// declines where it does not: `None` stands for a text with a `let` that
/// gets as far as its `=` and is never ended by a `;`.
///
/// The program holds the nodes of the statements that parsed, in source
/// order; the errors are those of the statements that did not.
pub fn parse(input: String) -> (outcome: Option<(Program, Vec<ParserError>)>)
    ensures
        outcome is Some <==> every_let_terminated(token_stream(input@, 0)),
        outcome matches Some((tree, _)) ==> tree@ == program(token_stream(input@, 0)).nodes,
        outcome matches Some((_, errors)) ==> error_views(errors@) == program(
            token_stream(input@, 0),
        ).errors,
{
    let tokens = tokenize(input.clone());
    if !lets_terminated(&tokens) {
        return None;
    }
    let ghost stream = token_stream(input@, 0);
    let mut parser = Parser::new(Lexer::new(input));
    proof {
        lemma_token_stream_has_no_eof(input@, 0);
        lemma_over(stream, Seq::empty());
    }
    match parser.parse_program() {
        Some(tree) => {
            assert(parser@.errors =~= program(stream).errors);
            Some((tree, parser.errors))
        },
        None => None,
    }
}

} // verus!
