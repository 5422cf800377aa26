//! The statement grammar: which nodes and which errors a stream of tokens
//! gives rise to.
//!
//! A stream is the sequence of the tokens that are still to be consumed, the
//! current one first; `Eof` follows its last token for ever and is not part of
//! it.
//!
//! The only statement is `let <identifier> = <anything> ;`. Behind the `=`
//! the rule passes over every token up to the next `;` without looking at it,
//! and it never gives up looking: on a stream that has no `;` left it would
//! go on for ever. [`every_let_terminated`] tells the streams on which that
//! does not happen; the functions below are defined on every stream, and say
//! what the parser does on those.
use crate::ast::NodeView;
use crate::error::{ParserErrorView, WrongTokenView};
use crate::lexical::{rest_of, token_at};
use crate::token::TokenView;
use vstd::prelude::*;

verus! {

/// The error for a token that was found where another was required. What was
/// required is given as an identifier without a name, which stands for the
/// kind of token and for no token in particular.
pub open spec fn wrong_token(got: TokenView) -> ParserErrorView {
    ParserErrorView::WrongToken(
        WrongTokenView { expected: TokenView::Identifier(Seq::empty()), got },
    )
}

/// The place of the first `;` at or behind place `from`, or the length of
/// the stream where there is none.
pub open spec fn semicolon_from(tokens: Seq<TokenView>, from: int) -> int
    decreases tokens.len() - from,
{
    if 0 <= from < tokens.len() && tokens[from] != TokenView::Semicolon {
        semicolon_from(tokens, from + 1)
    } else {
        from
    }
}

/// The token behind the current one is an identifier and `=` follows it: the
/// `let` rule will go looking for the `;` that ends the statement.
pub open spec fn is_let_head(tokens: Seq<TokenView>) -> bool {
    token_at(tokens, 1) is Identifier && token_at(tokens, 2) == TokenView::Assign
}

/// The `let` rule comes to an end on `tokens`: where it goes looking for a
/// `;`, there is one.
pub open spec fn let_terminated(tokens: Seq<TokenView>) -> bool {
    is_let_head(tokens) ==> semicolon_from(tokens, 2) < tokens.len()
}

/// Every `let` of the stream that gets as far as its `=` is ended by a `;`.
pub open spec fn every_let_terminated(tokens: Seq<TokenView>) -> bool {
    forall|k: int|
        0 <= k < tokens.len() && tokens[k] == TokenView::Let ==> let_terminated(
            #[trigger] tokens.skip(k),
        )
}

/// What a rule makes of a stream: the node it produced, if any, the errors
/// it recorded, and the stream it leaves, which starts with the token that
/// the rule stopped on.
pub struct Outcome {
    pub node: Option<NodeView>,
    pub errors: Seq<ParserErrorView>,
    pub rest: Seq<TokenView>,
}

/// The rule for `let <identifier> = <anything> ;`, applied with `let` as the
/// current token.
///
/// Without an identifier behind `let` the rule records the token found there
/// and consumes nothing. Without `=` behind the identifier it records the
/// token found there and has consumed `let`. Otherwise it yields the
/// statement with its identifier and leaves the stream at the first `;`.
pub open spec fn let_rule(tokens: Seq<TokenView>) -> Outcome {
    if !(token_at(tokens, 1) is Identifier) {
        Outcome { node: None, errors: seq![wrong_token(token_at(tokens, 1))], rest: tokens }
    } else if token_at(tokens, 2) != TokenView::Assign {
        Outcome {
            node: None,
            errors: seq![wrong_token(token_at(tokens, 2))],
            rest: tokens.skip(1),
        }
    } else {
        Outcome {
            node: Some(NodeView::LetStatement(Some(tokens[1]))),
            errors: Seq::empty(),
            rest: tokens.skip(semicolon_from(tokens, 2)),
        }
    }
}

/// The rule for a statement: a `let` statement where the current token is
/// `let`; any other token is passed over without a node and without an
/// error.
pub open spec fn statement_rule(tokens: Seq<TokenView>) -> Outcome {
    if token_at(tokens, 0) == TokenView::Let {
        let_rule(tokens)
    } else {
        Outcome { node: None, errors: Seq::empty(), rest: tokens }
    }
}

/// The nodes and the errors of a whole stream.
pub struct Parsed {
    pub nodes: Seq<NodeView>,
    pub errors: Seq<ParserErrorView>,
}

/// The node of an outcome as a sequence of one node or of none.
pub open spec fn produced(node: Option<NodeView>) -> Seq<NodeView> {
    match node {
        Some(node) => seq![node],
        None => Seq::empty(),
    }
}

/// What parsing makes of a stream: the statement rule is applied, the token
/// it stopped on is consumed, and so on until the current token is `Eof`.
pub open spec fn program(tokens: Seq<TokenView>) -> Parsed
    decreases tokens.len(),
{
    if token_at(tokens, 0) == TokenView::Eof {
        Parsed { nodes: Seq::empty(), errors: Seq::empty() }
    } else {
        let outcome = statement_rule(tokens);
        proof {
            lemma_semicolon_from(tokens, 2);
        }
        let later = program(rest_of(outcome.rest));
        Parsed {
            nodes: produced(outcome.node) + later.nodes,
            errors: outcome.errors + later.errors,
        }
    }
}

/// The first `;` from `from` on lies between `from` and the end of the
/// stream, no token before it is `;`, and it is `;` unless it is the end.
pub proof fn lemma_semicolon_from(tokens: Seq<TokenView>, from: int)
    requires
        0 <= from,
    ensures
        from <= semicolon_from(tokens, from),
        from <= tokens.len() ==> semicolon_from(tokens, from) <= tokens.len(),
        forall|i: int|
            from <= i < semicolon_from(tokens, from) ==> #[trigger] tokens[i]
                != TokenView::Semicolon,
        semicolon_from(tokens, from) < tokens.len() ==> tokens[semicolon_from(tokens, from)]
            == TokenView::Semicolon,
    decreases tokens.len() - from,
{
    if from < tokens.len() && tokens[from] != TokenView::Semicolon {
        lemma_semicolon_from(tokens, from + 1);
    }
}

/// Where every `let` of a stream is ended, every `let` of what is left of
/// it from place `from` on is ended too.
pub proof fn lemma_terminated_suffix(tokens: Seq<TokenView>, from: int)
    requires
        every_let_terminated(tokens),
        0 <= from <= tokens.len(),
    ensures
        every_let_terminated(tokens.skip(from)),
{
    let suffix = tokens.skip(from);
    assert forall|k: int| 0 <= k < suffix.len() && suffix[k] == TokenView::Let implies let_terminated(
        #[trigger] suffix.skip(k),
    ) by {
        assert(suffix.skip(k) =~= tokens.skip(from + k));
    }
}

/// The stream that the statement rule leaves is what is left of the stream
/// it was given from some place on; the place is inside the stream unless
/// the stream is empty.
pub proof fn lemma_statement_rule_rest(tokens: Seq<TokenView>)
    requires
        token_at(tokens, 0) == TokenView::Let ==> let_terminated(tokens),
    ensures
        exists|from: int|
            0 <= from <= tokens.len() && (from < tokens.len() || tokens.len() == 0)
                && #[trigger] tokens.skip(from) == statement_rule(tokens).rest,
{
    lemma_semicolon_from(tokens, 2);
    let rest = statement_rule(tokens).rest;
    if rest == tokens {
        assert(tokens.skip(0) =~= tokens);
    } else if rest == tokens.skip(1) {
    } else {
        assert(rest == tokens.skip(semicolon_from(tokens, 2)));
    }
}

/// The first `;` of what is left of a stream from place `k` on is the first
/// `;` of the stream itself, counted from `k`.
pub proof fn lemma_semicolon_from_skip(tokens: Seq<TokenView>, k: int, from: int)
    requires
        0 <= k <= tokens.len(),
        0 <= from,
    ensures
        semicolon_from(tokens.skip(k), from) + k == semicolon_from(tokens, from + k),
    decreases tokens.len() - k - from,
{
    if from < tokens.skip(k).len() && tokens.skip(k)[from] != TokenView::Semicolon {
        lemma_semicolon_from_skip(tokens, k, from + 1);
    }
}

/// Every node of a parsed stream is a `let` statement that carries its
/// identifier, and every error names a token found where another was
/// required.
pub proof fn lemma_program_shape(tokens: Seq<TokenView>)
    ensures
        forall|i: int|
            0 <= i < program(tokens).nodes.len() ==> (#[trigger] program(tokens).nodes[i]
                matches NodeView::LetStatement(Some(TokenView::Identifier(_)))),
        forall|i: int|
            0 <= i < program(tokens).errors.len() ==> exists|got: TokenView|
                #[trigger] program(tokens).errors[i] == wrong_token(got),
    decreases tokens.len(),
{
    if token_at(tokens, 0) != TokenView::Eof {
        let outcome = statement_rule(tokens);
        lemma_semicolon_from(tokens, 2);
        lemma_program_shape(rest_of(outcome.rest));
        let later = program(rest_of(outcome.rest));
        assert forall|i: int| 0 <= i < program(tokens).errors.len() implies exists|got: TokenView|
            #[trigger] program(tokens).errors[i] == wrong_token(got) by {
            if i < outcome.errors.len() {
                assert(outcome.errors[i] == wrong_token(token_at(tokens, 1)) || outcome.errors[i]
                    == wrong_token(token_at(tokens, 2)));
            } else {
                assert(program(tokens).errors[i] == later.errors[i - outcome.errors.len()]);
            }
        }
    }
}

/// A stream without `let` parses to nothing: no node and no error, whatever
/// its tokens are.
pub proof fn lemma_program_without_let(tokens: Seq<TokenView>)
    requires
        forall|i: int| 0 <= i < tokens.len() ==> #[trigger] tokens[i] != TokenView::Let,
    ensures
        program(tokens).nodes == Seq::<NodeView>::empty(),
        program(tokens).errors == Seq::<ParserErrorView>::empty(),
    decreases tokens.len(),
{
    if token_at(tokens, 0) != TokenView::Eof {
        lemma_program_without_let(rest_of(tokens));
        assert(program(tokens).nodes =~= Seq::<NodeView>::empty());
        assert(program(tokens).errors =~= Seq::<ParserErrorView>::empty());
    }
}

} // verus!
