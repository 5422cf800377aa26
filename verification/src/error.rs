//! The errors that the parser records.
use crate::token::{Token, TokenView};
use vstd::prelude::*;

verus! {

/// A token was required and another one was found.
#[derive(Debug)]
pub struct WrongToken {
    pub expected: Token,
    pub got: Token,
}

/// The mathematical value of a [`WrongToken`].
pub struct WrongTokenView {
    pub expected: TokenView,
    pub got: TokenView,
}

impl View for WrongToken {
    type V = WrongTokenView;

    open spec fn view(&self) -> WrongTokenView {
        WrongTokenView { expected: self.expected@, got: self.got@ }
    }
}

/// What can go wrong while parsing.
#[derive(Debug)]
pub enum ParserError {
    WrongToken(WrongToken),
}

/// The mathematical value of a [`ParserError`].
pub enum ParserErrorView {
    WrongToken(WrongTokenView),
}

impl View for ParserError {
    type V = ParserErrorView;

    open spec fn view(&self) -> ParserErrorView {
        match self {
            ParserError::WrongToken(wrong) => ParserErrorView::WrongToken(wrong@),
        }
    }
}

/// The values of the errors of a sequence, in order.
pub open spec fn error_views(errors: Seq<ParserError>) -> Seq<ParserErrorView> {
    errors.map_values(|error: ParserError| error@)
}

} // verus!
