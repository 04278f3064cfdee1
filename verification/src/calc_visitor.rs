//! Evaluation of an expression in reverse Polish notation: numbers go on a
//! stack, each operator folds the two topmost entries.  Arithmetic that does
//! not fit in an `i32`, division by zero included, is reported as an error.

use vstd::prelude::*;

use crate::token::Operator;
use crate::token::Paren;
use crate::token::Token;
use crate::token::TokenListVisitor;

verus! {

/// Rust's truncating division, written out for signed operands.
pub open spec fn div_trunc(x: int, d: int) -> int {
    if x == 0 {
        0
    } else if x > 0 && d > 0 {
        x / d
    } else if x < 0 && d < 0 {
        (x * -1) / (d * -1)
    } else if x < 0 {
        ((x * -1) / d) * -1
    } else {
        (x / (d * -1)) * -1
    }
}

/// The exact value an operator produces on two operands, `None` for a
/// division by zero.  The value is unbounded; whether it fits in an `i32` is
/// a separate question.
pub open spec fn calc_op_val(op: Operator, x1: int, x2: int) -> Option<int> {
    match op {
        Operator::Plus => Some(x1 + x2),
        Operator::Minus => Some(x1 - x2),
        Operator::Star => Some(x1 * x2),
        Operator::Slash => if x2 == 0 {
            None
        } else {
            Some(div_trunc(x1, x2))
        },
    }
}

/// The `i32` a `u32` token value lands on: reinterpreted in two's
/// complement when it does not fit.
pub open spec fn wrap_i32(x: u32) -> i32 {
    if x <= i32::MAX {
        x as i32
    } else {
        ((x as int) - 0x1_0000_0000) as i32
    }
}

/// One token's effect on the evaluation stack, or the error text refusing
/// it.
pub open spec fn calc_step(stack: Seq<i32>, t: Token) -> Result<Seq<i32>, Seq<char>> {
    match t {
        Token::Paren(_) => Err("No parenthesis in RPN expected"@),
        Token::Number(x) => Ok(stack.push(wrap_i32(x))),
        Token::Operator(op) => {
            if stack.len() < 2 {
                Err("expected argument"@)
            } else {
                let x1 = stack[stack.len() - 2] as int;
                let x2 = stack.last() as int;
                if op is Slash && x2 == 0 {
                    Err("Division by zero"@)
                } else {
                    let v = calc_op_val(op, x1, x2).unwrap();
                    if i32::MIN <= v <= i32::MAX {
                        Ok(stack.drop_last().drop_last().push(v as i32))
                    } else {
                        Err("arithmetic overflow"@)
                    }
                }
            }
        },
    }
}

/// The stack after feeding the tokens from position `i` on, or the first
/// error.
pub open spec fn calc_fold(stack: Seq<i32>, tokens: Seq<Token>, i: int) -> Result<
    Seq<i32>,
    Seq<char>,
>
    decreases tokens.len() - i,
{
    if i < 0 || i >= tokens.len() {
        Ok(stack)
    } else {
        match calc_step(stack, tokens[i]) {
            Ok(st) => calc_fold(st, tokens, i + 1),
            Err(e) => Err(e),
        }
    }
}

/// What evaluating a whole token list yields: the single value left on the
/// stack, or the first error's text.
pub open spec fn spec_calc_tokens(tokens: Seq<Token>) -> Result<i32, Seq<char>> {
    match calc_fold(Seq::empty(), tokens, 0) {
        Ok(st) => if st.len() == 1 {
            Ok(st[0])
        } else if st.len() == 0 {
            Err("Unexpected empty evaluation stack"@)
        } else {
            Err("Unexpected elements left in evaluation stack"@)
        },
        Err(e) => Err(e),
    }
}

pub struct CalcVisitor {
    stack: Vec<i32>,
}

impl CalcVisitor {
    /// The evaluation stack, oldest entry first.
    pub closed spec fn stack_view(self) -> Seq<i32> {
        self.stack@
    }
}

impl TokenListVisitor for CalcVisitor {
    type Error = &'static str;

    type Output = i32;

    fn new() -> (r: Self)
        ensures
            r.stack_view() == Seq::<i32>::empty(),
    {
        CalcVisitor { stack: Vec::new() }
    }

    /// Parentheses have no place in reverse Polish notation.
    fn visit_left(&mut self) -> (r: Result<(), Self::Error>)
        ensures
            r matches Err(e) && e@ == "No parenthesis in RPN expected"@,
            *final(self) == *old(self),
    {
        proof {
            reveal_strlit("No parenthesis in RPN expected");
        }
        Err("No parenthesis in RPN expected")
    }

    /// Parentheses have no place in reverse Polish notation.
    fn visit_right(&mut self) -> (r: Result<(), Self::Error>)
        ensures
            r matches Err(e) && e@ == "No parenthesis in RPN expected"@,
            *final(self) == *old(self),
    {
        proof {
            reveal_strlit("No parenthesis in RPN expected");
        }
        Err("No parenthesis in RPN expected")
    }

    /// A number is pushed onto the evaluation stack.
    fn visit_number(&mut self, x: u32) -> (r: Result<(), Self::Error>)
        ensures
            r is Ok,
            final(self).stack_view().len() == old(self).stack_view().len() + 1,
            final(self).stack_view().drop_last() == old(self).stack_view(),
            final(self).stack_view().last() == wrap_i32(x),
    {
        let v: i32 = if x <= (i32::MAX as u32) {
            x as i32
        } else {
            -((u32::MAX - x) as i32) - 1
        };
        self.stack.push(v);
        proof {
            assert(v == wrap_i32(x));
            assert(self.stack@.drop_last() =~= old(self).stack@);
        }
        Ok(())
    }

    /// An operator folds the two topmost stack entries into one.  It fails,
    /// consuming what it popped, when fewer than two operands are on the
    /// stack, on division by zero, and when the exact value does not fit in
    /// an `i32`.
    fn visit_op(&mut self, op: Operator) -> (r: Result<(), Self::Error>)
        ensures
            ({
                let st = old(self).stack_view();
                if st.len() < 2 {
                    (r matches Err(e) && e@ == "expected argument"@) && final(self).stack_view() == st.take(0)
                } else {
                    let x1 = st[st.len() - 2] as int;
                    let x2 = st.last() as int;
                    let popped = st.drop_last().drop_last();
                    match calc_op_val(op, x1, x2) {
                        Some(v) => {
                            if i32::MIN <= v <= i32::MAX {
                                r is Ok && final(self).stack_view() == popped.push(v as i32)
                            } else {
                                (r matches Err(e) && e@ == "arithmetic overflow"@) && final(self).stack_view() == popped
                            }
                        },
                        None => (r matches Err(e) && e@ == "Division by zero"@) && final(self).stack_view() == popped,
                    }
                }
            }),
    {
        proof {
            reveal_strlit("expected argument");
            reveal_strlit("arithmetic overflow");
            reveal_strlit("Division by zero");
        }
        let ghost st = self.stack@;
        let x2 = match self.stack.pop() {
            Some(x) => x,
            None => {
                proof {
                    assert(self.stack@ =~= st.take(0));
                }
                return Err("expected argument");
            },
        };
        let x1 = match self.stack.pop() {
            Some(x) => x,
            None => {
                proof {
                    assert(self.stack@ =~= st.take(0));
                }
                return Err("expected argument");
            },
        };
        let res = match op {
            Operator::Plus => match x1.checked_add(x2) {
                Some(v) => v,
                None => {
                    return Err("arithmetic overflow");
                },
            },
            Operator::Minus => match x1.checked_sub(x2) {
                Some(v) => v,
                None => {
                    return Err("arithmetic overflow");
                },
            },
            Operator::Star => match x1.checked_mul(x2) {
                Some(v) => v,
                None => {
                    return Err("arithmetic overflow");
                },
            },
            Operator::Slash => {
                if x2 != 0 {
                    match x1.checked_div(x2) {
                        Some(v) => v,
                        None => {
                            return Err("arithmetic overflow");
                        },
                    }
                } else {
                    return Err("Division by zero");
                }
            },
        };
        self.stack.push(res);
        Ok(())
    }

    /// The value of the expression: exactly one entry must be left, an
    /// empty or overfull stack names its own error.
    fn get_result(self) -> (r: Result<Self::Output, Self::Error>)
        ensures
            self.stack_view().len() == 1 <==> r is Ok,
            r matches Ok(v) ==> v == self.stack_view().last(),
            self.stack_view().len() == 0 ==> (r matches Err(e) && e@
                == "Unexpected empty evaluation stack"@),
            self.stack_view().len() >= 2 ==> (r matches Err(e) && e@
                == "Unexpected elements left in evaluation stack"@),
    {
        proof {
            reveal_strlit("Unexpected empty evaluation stack");
            reveal_strlit("Unexpected elements left in evaluation stack");
        }
        let mut this = self;
        let res = match this.stack.pop() {
            Some(x) => x,
            None => {
                return Err("Unexpected empty evaluation stack");
            },
        };
        if this.stack.len() > 0 {
            return Err("Unexpected elements left in evaluation stack");
        }
        Ok(res)
    }

    /// One token's effect, exactly as `calc_step` says.
    fn visit(&mut self, token: Token) -> (r: Result<(), Self::Error>)
        ensures
            match calc_step(old(self).stack_view(), token) {
                Ok(st) => r is Ok && final(self).stack_view() == st,
                Err(msg) => r matches Err(e) && e@ == msg,
            },
    {
        match token {
            Token::Paren(p) => match p {
                Paren::Left => self.visit_left(),
                Paren::Right => self.visit_right(),
            },
            Token::Number(x) => self.visit_number(x),
            Token::Operator(op) => self.visit_op(op),
        }
    }

    /// Evaluates a whole token list: exactly the value `spec_calc_tokens`
    /// gives, or its first error.
    fn visit_tokens(tokens: Vec<Token>) -> (r: Result<Self::Output, Self::Error>)
        ensures
            match spec_calc_tokens(tokens@) {
                Ok(v) => r == Ok::<i32, &'static str>(v),
                Err(msg) => r matches Err(e) && e@ == msg,
            },
    {
        let mut visitor = Self::new();
        let mut i: usize = 0;
        while i < tokens.len()
            invariant
                0 <= i <= tokens@.len(),
                calc_fold(Seq::empty(), tokens@, 0) == calc_fold(
                    visitor.stack_view(),
                    tokens@,
                    i as int,
                ),
            decreases tokens@.len() - i,
        {
            match visitor.visit(tokens[i]) {
                Ok(()) => {},
                Err(e) => {
                    return Err(e);
                },
            }
            i += 1;
        }
        visitor.get_result()
    }
}

} // verus!
