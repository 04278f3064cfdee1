//! The shunting-yard pass: it reorders an infix token list into reverse
//! Polish notation, holding operators (and left parentheses) on a stack and
//! moving them to the output by precedence.

use vstd::prelude::*;
use vstd::string::StringExecFns;

use crate::token::Operator;
use crate::token::Paren;
use crate::token::Token;
use crate::token::TokenListVisitor;

verus! {

/// Whether the operator on top of the stack is moved to the output before
/// `op` goes onto the stack: all four operators associate to the left, so a
/// stack operator of at least the same precedence leaves first.
pub open spec fn pops_before(op: Operator, t: Token) -> bool {
    match t {
        Token::Operator(on_stack) => op.spec_precedence() <= on_stack.spec_precedence(),
        _ => false,
    }
}

/// The effect of `visit_op`: stack operators of sufficient precedence move
/// to the output, then `op` is pushed.  The result is (output, stack).
pub open spec fn shunt_op(output: Seq<Token>, stack: Seq<Token>, op: Operator) -> (
    Seq<Token>,
    Seq<Token>,
)
    decreases stack.len(),
{
    if stack.len() > 0 && pops_before(op, stack.last()) {
        shunt_op(output.push(stack.last()), stack.drop_last(), op)
    } else {
        (output, stack.push(Token::Operator(op)))
    }
}

/// The effect of `visit_right`: stack entries move to the output until a
/// right parenthesis is found on the stack, which is then discarded; if none
/// is there, the whole stack is drained and the pass fails.  The result is
/// (output, stack, found).
pub open spec fn shunt_right(output: Seq<Token>, stack: Seq<Token>) -> (
    Seq<Token>,
    Seq<Token>,
    bool,
)
    decreases stack.len(),
{
    if stack.len() == 0 {
        (output, stack, false)
    } else if stack.last() == Token::Paren(Paren::Right) {
        (output, stack.drop_last(), true)
    } else {
        shunt_right(output.push(stack.last()), stack.drop_last())
    }
}

/// One token's effect on (output, stack), or the error text refusing it.
pub open spec fn parse_step(output: Seq<Token>, stack: Seq<Token>, t: Token) -> Result<
    (Seq<Token>, Seq<Token>),
    Seq<char>,
> {
    match t {
        Token::Paren(Paren::Left) => Ok((output, stack.push(Token::Paren(Paren::Left)))),
        Token::Paren(Paren::Right) => {
            let (out, st, found) = shunt_right(output, stack);
            if found {
                Ok((out, st))
            } else {
                Err("Unexpected ')'"@)
            }
        },
        Token::Number(x) => Ok((output.push(Token::Number(x)), stack)),
        Token::Operator(op) => Ok(shunt_op(output, stack, op)),
    }
}

/// The (output, stack) after feeding the tokens from position `i` on, or
/// the first error.
pub open spec fn parse_fold(
    output: Seq<Token>,
    stack: Seq<Token>,
    tokens: Seq<Token>,
    i: int,
) -> Result<(Seq<Token>, Seq<Token>), Seq<char>>
    decreases tokens.len() - i,
{
    if i < 0 || i >= tokens.len() {
        Ok((output, stack))
    } else {
        match parse_step(output, stack, tokens[i]) {
            Ok(p) => parse_fold(p.0, p.1, tokens, i + 1),
            Err(e) => Err(e),
        }
    }
}

/// What the shunting-yard pass yields on a whole token list: the reverse
/// Polish output with the leftover stack appended last-in first-out, or the
/// first error's text.
pub open spec fn spec_parse_tokens(tokens: Seq<Token>) -> Result<Seq<Token>, Seq<char>> {
    match parse_fold(Seq::empty(), Seq::empty(), tokens, 0) {
        Ok(p) => Ok(p.0 + p.1.reverse()),
        Err(e) => Err(e),
    }
}

pub struct ParserVisitor {
    output: Vec<Token>,
    stack: Vec<Token>,
}

impl ParserVisitor {
    /// The output produced so far, in reverse Polish notation.
    pub closed spec fn output_view(self) -> Seq<Token> {
        self.output@
    }

    /// The operators and left parentheses still held back.
    pub closed spec fn stack_view(self) -> Seq<Token> {
        self.stack@
    }
}

impl TokenListVisitor for ParserVisitor {
    type Output = Vec<Token>;

    type Error = String;

    fn new() -> (r: ParserVisitor)
        ensures
            r.output_view() == Seq::<Token>::empty(),
            r.stack_view() == Seq::<Token>::empty(),
    {
        ParserVisitor { output: Vec::new(), stack: Vec::new() }
    }

    /// A left parenthesis is held back on the stack.
    fn visit_left(&mut self) -> (r: Result<(), String>)
        ensures
            r is Ok,
            final(self).output_view() == old(self).output_view(),
            final(self).stack_view() == old(self).stack_view().push(Token::Paren(Paren::Left)),
    {
        self.stack.push(Token::Paren(Paren::Left));
        Ok(())
    }

    /// A right parenthesis pops the stack as `shunt_right` says; failure to
    /// find its counterpart on the stack fails the pass.
    fn visit_right(&mut self) -> (r: Result<(), String>)
        ensures
            ({
                let (out, st, found) = shunt_right(
                    old(self).output_view(),
                    old(self).stack_view(),
                );
                &&& final(self).output_view() == out
                &&& final(self).stack_view() == st
                &&& r is Ok <==> found
                &&& !found ==> (r matches Err(e) && e@ == "Unexpected ')'"@)
            }),
    {
        proof {
            reveal_strlit("Unexpected ')'");
        }
        let ghost out0 = self.output@;
        let ghost st0 = self.stack@;
        while top_is_not_right(&self.stack)
            invariant
                shunt_right(out0, st0) == shunt_right(self.output@, self.stack@),
            decreases self.stack@.len(),
        {
            let moved = self.stack.pop().unwrap();
            self.output.push(moved);
        }
        if self.stack.len() == 0 {
            return Err(String::from_str("Unexpected ')'"));
        }
        self.stack.pop();
        Ok(())
    }

    /// A number goes straight to the output.
    fn visit_number(&mut self, x: u32) -> (r: Result<(), String>)
        ensures
            r is Ok,
            final(self).output_view() == old(self).output_view().push(Token::Number(x)),
            final(self).stack_view() == old(self).stack_view(),
    {
        self.output.push(Token::Number(x));
        Ok(())
    }

    /// An operator moves its precedence-equals-or-betters to the output,
    /// then waits on the stack.
    fn visit_op(&mut self, op: Operator) -> (r: Result<(), String>)
        ensures
            r is Ok,
            ({
                let (out, st) = shunt_op(old(self).output_view(), old(self).stack_view(), op);
                final(self).output_view() == out && final(self).stack_view() == st
            }),
    {
        let ghost out0 = self.output@;
        let ghost st0 = self.stack@;
        while top_pops_before(&self.stack, op)
            invariant
                shunt_op(out0, st0, op) == shunt_op(self.output@, self.stack@, op),
            decreases self.stack@.len(),
        {
            let moved = self.stack.pop().unwrap();
            self.output.push(moved);
        }
        self.stack.push(Token::Operator(op));
        Ok(())
    }

    /// Whatever the stack still holds is appended to the output, last in
    /// first out.
    fn get_result(self) -> (r: Result<Vec<Token>, String>)
        ensures
            r matches Ok(v) && v@ == self.output_view() + self.stack_view().reverse(),
    {
        let mut this = self;
        let ghost out0 = this.output@;
        let ghost st0 = this.stack@;
        while this.stack.len() > 0
            invariant
                out0 + st0.reverse() =~= this.output@ + this.stack@.reverse(),
            decreases this.stack@.len(),
        {
            let moved = this.stack.pop().unwrap();
            this.output.push(moved);
            proof {
                assert(this.output@ + this.stack@.reverse() =~= out0 + st0.reverse());
            }
        }
        proof {
            assert(this.output@ + this.stack@.reverse() =~= this.output@);
        }
        Ok(this.output)
    }

    /// One token's effect, exactly as `parse_step` says.
    fn visit(&mut self, token: Token) -> (r: Result<(), String>)
        ensures
            match parse_step(old(self).output_view(), old(self).stack_view(), token) {
                Ok(p) => r is Ok && final(self).output_view() == p.0 && final(self).stack_view() == p.1,
                Err(msg) => r matches Err(e) && e@ == msg,
            },
    {
        match token {
            Token::Paren(p) => match p {
                Paren::Left => self.visit_left(),
                Paren::Right => self.visit_right(),
            },
            Token::Number(x) => self.visit_number(x),
            Token::Operator(op) => self.visit_op(op),
        }
    }

    /// Reorders a whole token list: exactly what `spec_parse_tokens` gives,
    /// or its first error.
    fn visit_tokens(tokens: Vec<Token>) -> (r: Result<Self::Output, Self::Error>)
        ensures
            match spec_parse_tokens(tokens@) {
                Ok(ts) => r matches Ok(v) && v@ == ts,
                Err(msg) => r matches Err(e) && e@ == msg,
            },
    {
        let mut visitor = Self::new();
        let mut i: usize = 0;
        while i < tokens.len()
            invariant
                0 <= i <= tokens@.len(),
                parse_fold(Seq::empty(), Seq::empty(), tokens@, 0) == parse_fold(
                    visitor.output_view(),
                    visitor.stack_view(),
                    tokens@,
                    i as int,
                ),
            decreases tokens@.len() - i,
        {
            match visitor.visit(tokens[i]) {
                Ok(()) => {},
                Err(e) => {
                    return Err(e);
                },
            }
            i += 1;
        }
        visitor.get_result()
    }
}

/// Whether the stack still has entries to drain before a right parenthesis
/// can be matched.
fn top_is_not_right(stack: &Vec<Token>) -> (b: bool)
    ensures
        b == (stack@.len() > 0 && stack@.last() != Token::Paren(Paren::Right)),
{
    if stack.len() == 0 {
        return false;
    }
    match &stack[stack.len() - 1] {
        Token::Paren(Paren::Right) => false,
        _ => true,
    }
}

/// Whether the operator on top of the stack leaves before `op` goes on.
fn top_pops_before(stack: &Vec<Token>, op: Operator) -> (b: bool)
    ensures
        b == (stack@.len() > 0 && pops_before(op, stack@.last())),
{
    if stack.len() == 0 {
        return false;
    }
    match &stack[stack.len() - 1] {
        Token::Operator(op_on_stack) => {
            op.left_associative() && op.precedence() <= op_on_stack.precedence()
        },
        _ => false,
    }
}

} // verus!
