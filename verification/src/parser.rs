//! Parsing: tokens to a syntax tree.  `syntax` holds the parser and `grammar` what it does;
//! the `Parser` here is the first form, which kept the tokens and the text only.
pub mod grammar;
pub mod syntax;

use vstd::prelude::*;
use crate::lexer::{Token, TokenView, tokens_view};

verus! {

/// A parser over tokens and the text they came from, at a position in the tokens.
pub struct Parser<'a> {
    input: String,
    tokens: &'a Vec<Token>,
    i: usize,
}

impl<'a> Parser<'a> {
    /// The tokens it reads.
    pub closed spec fn toks(&self) -> Seq<TokenView> {
        tokens_view(self.tokens@)
    }

    /// The text the tokens came from.
    pub closed spec fn text(&self) -> Seq<char> {
        self.input@
    }

    /// The position of the current token.
    pub closed spec fn pos(&self) -> int {
        self.i as int
    }

    /// A parser at the first token.
    pub fn new(tokens: &'a Vec<Token>, input: String) -> (p: Self)
        ensures
            p.toks() == tokens_view(tokens@),
            p.text() == input@,
            p.pos() == 0,
    {
        Parser { tokens, i: 0, input }
    }

    /// The text the tokens came from.
    pub fn input(&self) -> (r: String)
        ensures
            r@ == self.text(),
    {
        self.input.clone()
    }
}

} // verus!
