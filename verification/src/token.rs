//! Tokens of the arithmetic expression language: numbers, the four binary
//! operators, and parentheses.

use vstd::prelude::*;

verus! {

#[derive(Debug, Clone, Copy, PartialEq, Eq, Structural)]
pub enum Paren {
    Left,
    Right,
}

#[derive(Debug, Clone, Copy, PartialEq, Eq, Structural)]
pub enum Operator {
    Plus,
    Minus,
    Star,
    Slash,
}

#[derive(Debug, Clone, Copy, PartialEq, Eq, Structural)]
pub enum Token {
    Paren(Paren),
    Number(u32),
    Operator(Operator),
}

impl Operator {
    /// All four operators of this language associate to the left.
    pub fn left_associative(&self) -> (r: bool)
        ensures
            r == true,
    {
        true
    }

    /// `Star` and `Slash` bind tighter than `Plus` and `Minus`.
    pub fn precedence(&self) -> (r: u8)
        ensures
            r == self.spec_precedence(),
    {
        match self {
            Operator::Plus => 1,
            Operator::Minus => 1,
            Operator::Star => 2,
            Operator::Slash => 2,
        }
    }

    pub open spec fn spec_precedence(self) -> u8 {
        match self {
            Operator::Plus => 1,
            Operator::Minus => 1,
            Operator::Star => 2,
            Operator::Slash => 2,
        }
    }
}

/// A pass over a token list: each token is dispatched to one of the four
/// `visit_*` methods, and `get_result` closes the pass.  What a visitor
/// guarantees is stated on its own implementation; this trait only fixes the
/// dispatch.
pub trait TokenListVisitor: Sized {
    type Output;

    type Error;

    fn new() -> Self;

    fn visit_left(&mut self) -> Result<(), Self::Error>;

    fn visit_right(&mut self) -> Result<(), Self::Error>;

    fn visit_number(&mut self, x: u32) -> Result<(), Self::Error>;

    fn visit_op(&mut self, op: Operator) -> Result<(), Self::Error>;

    fn visit(&mut self, token: Token) -> Result<(), Self::Error> {
        match token {
            Token::Paren(p) => match p {
                Paren::Left => self.visit_left(),
                Paren::Right => self.visit_right(),
            },
            Token::Number(x) => self.visit_number(x),
            Token::Operator(op) => self.visit_op(op),
        }
    }

    fn get_result(self) -> Result<Self::Output, Self::Error>;

    fn visit_tokens(tokens: Vec<Token>) -> Result<Self::Output, Self::Error> {
        let mut visitor = Self::new();
        let mut i: usize = 0;
        while i < tokens.len()
            decreases tokens.len() - i,
        {
            visitor.visit(tokens[i])?;
            i += 1;
        }
        visitor.get_result()
    }
}

} // verus!
