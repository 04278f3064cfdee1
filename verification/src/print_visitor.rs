//! Rendering a token list in reverse Polish notation as text: each number
//! and operator is written in turn, followed by one space.  The visitor only
//! builds the line; whoever runs it decides where the text goes.

use vstd::prelude::*;
use vstd::string::StringExecFns;

use crate::token::Operator;
use crate::token::Paren;
use crate::token::Token;
use crate::token::TokenListVisitor;

verus! {

/// The character of a decimal digit.
pub open spec fn digit_char(d: int) -> char {
    if d == 0 {
        '0'
    } else if d == 1 {
        '1'
    } else if d == 2 {
        '2'
    } else if d == 3 {
        '3'
    } else if d == 4 {
        '4'
    } else if d == 5 {
        '5'
    } else if d == 6 {
        '6'
    } else if d == 7 {
        '7'
    } else if d == 8 {
        '8'
    } else {
        '9'
    }
}

/// The decimal numeral of `n`, most significant digit first.
pub open spec fn dec_chars(n: nat) -> Seq<char>
    decreases n,
{
    if n < 10 {
        seq![digit_char(n as int)]
    } else {
        dec_chars(n / 10).push(digit_char((n % 10) as int))
    }
}

/// The character of an operator.
pub open spec fn op_char(op: Operator) -> char {
    match op {
        Operator::Plus => '+',
        Operator::Minus => '-',
        Operator::Star => '*',
        Operator::Slash => '/',
    }
}

/// One token's rendering appended to the line, or the error text refusing
/// it.
pub open spec fn print_step(out: Seq<char>, t: Token) -> Result<Seq<char>, Seq<char>> {
    match t {
        Token::Paren(_) => Err("There shouldn't be parenthesis in RPN"@),
        Token::Number(x) => Ok(out + dec_chars(x as nat) + seq![' ']),
        Token::Operator(op) => Ok(out.push(op_char(op)).push(' ')),
    }
}

/// The line after rendering the tokens from position `i` on, or the first
/// error.
pub open spec fn print_fold(out: Seq<char>, tokens: Seq<Token>, i: int) -> Result<
    Seq<char>,
    Seq<char>,
>
    decreases tokens.len() - i,
{
    if i < 0 || i >= tokens.len() {
        Ok(out)
    } else {
        match print_step(out, tokens[i]) {
            Ok(o) => print_fold(o, tokens, i + 1),
            Err(e) => Err(e),
        }
    }
}

/// What rendering a whole token list yields: each number and operator in
/// turn, each followed by one space, or the error on a parenthesis.
pub open spec fn spec_print_tokens(tokens: Seq<Token>) -> Result<Seq<char>, Seq<char>> {
    print_fold(Seq::empty(), tokens, 0)
}

pub struct PrintVisitor {
    out: String,
}

impl PrintVisitor {
    /// The text rendered so far.
    pub closed spec fn out_view(self) -> Seq<char> {
        self.out@
    }
}

impl TokenListVisitor for PrintVisitor {
    type Error = &'static str;

    type Output = String;

    fn new() -> (r: Self)
        ensures
            r.out_view() == Seq::<char>::empty(),
    {
        PrintVisitor { out: String::new() }
    }

    /// Parentheses have no place in reverse Polish notation.
    fn visit_left(&mut self) -> (r: Result<(), Self::Error>)
        ensures
            r matches Err(e) && e@ == "There shouldn't be parenthesis in RPN"@,
            *final(self) == *old(self),
    {
        proof {
            reveal_strlit("There shouldn't be parenthesis in RPN");
        }
        Err("There shouldn't be parenthesis in RPN")
    }

    /// Parentheses have no place in reverse Polish notation.
    fn visit_right(&mut self) -> (r: Result<(), Self::Error>)
        ensures
            r matches Err(e) && e@ == "There shouldn't be parenthesis in RPN"@,
            *final(self) == *old(self),
    {
        proof {
            reveal_strlit("There shouldn't be parenthesis in RPN");
        }
        Err("There shouldn't be parenthesis in RPN")
    }

    /// A number is written as its decimal numeral and one space.
    fn visit_number(&mut self, x: u32) -> (r: Result<(), Self::Error>)
        ensures
            r is Ok,
            final(self).out_view() == old(self).out_view() + dec_chars(x as nat) + seq![' '],
    {
        push_decimal(&mut self.out, x);
        self.out.append(" ");
        proof {
            reveal_strlit(" ");
            assert(self.out@ =~= old(self).out@ + dec_chars(x as nat) + seq![' ']);
        }
        Ok(())
    }

    /// An operator is written as its sign and one space.
    fn visit_op(&mut self, op: Operator) -> (r: Result<(), Self::Error>)
        ensures
            r is Ok,
            final(self).out_view() == old(self).out_view() + seq![op_char(op), ' '],
    {
        match op {
            Operator::Plus => self.out.append("+ "),
            Operator::Minus => self.out.append("- "),
            Operator::Star => self.out.append("* "),
            Operator::Slash => self.out.append("/ "),
        }
        proof {
            reveal_strlit("+ ");
            reveal_strlit("- ");
            reveal_strlit("* ");
            reveal_strlit("/ ");
            assert(self.out@ =~= old(self).out@ + seq![op_char(op), ' ']);
        }
        Ok(())
    }

    /// The rendered line.
    fn get_result(self) -> (r: Result<Self::Output, Self::Error>)
        ensures
            r matches Ok(v) && v@ == self.out_view(),
    {
        Ok(self.out)
    }

    /// One token's effect, exactly as `print_step` says.
    fn visit(&mut self, token: Token) -> (r: Result<(), Self::Error>)
        ensures
            match print_step(old(self).out_view(), token) {
                Ok(o) => r is Ok && final(self).out_view() == o,
                Err(msg) => r matches Err(e) && e@ == msg,
            },
    {
        match token {
            Token::Paren(p) => match p {
                Paren::Left => self.visit_left(),
                Paren::Right => self.visit_right(),
            },
            Token::Number(x) => self.visit_number(x),
            Token::Operator(op) => self.visit_op(op),
        }
    }

    /// Renders a whole token list: exactly the line `spec_print_tokens`
    /// gives, or its error.
    fn visit_tokens(tokens: Vec<Token>) -> (r: Result<Self::Output, Self::Error>)
        ensures
            match spec_print_tokens(tokens@) {
                Ok(line) => r matches Ok(v) && v@ == line,
                Err(msg) => r matches Err(e) && e@ == msg,
            },
    {
        let mut visitor = Self::new();
        let mut i: usize = 0;
        while i < tokens.len()
            invariant
                0 <= i <= tokens@.len(),
                print_fold(Seq::empty(), tokens@, 0) == print_fold(
                    visitor.out_view(),
                    tokens@,
                    i as int,
                ),
            decreases tokens@.len() - i,
        {
            match visitor.visit(tokens[i]) {
                Ok(()) => {},
                Err(e) => {
                    return Err(e);
                },
            }
            i += 1;
        }
        visitor.get_result()
    }
}

/// Appends one decimal digit's character.
fn append_digit(out: &mut String, d: u32)
    requires
        d <= 9,
    ensures
        final(out)@ == old(out)@ + seq![digit_char(d as int)],
{
    if d == 0 {
        out.append("0");
        proof {
            reveal_strlit("0");
            assert(out@ =~= old(out)@ + seq![digit_char(d as int)]);
        }
    } else if d == 1 {
        out.append("1");
        proof {
            reveal_strlit("1");
            assert(out@ =~= old(out)@ + seq![digit_char(d as int)]);
        }
    } else if d == 2 {
        out.append("2");
        proof {
            reveal_strlit("2");
            assert(out@ =~= old(out)@ + seq![digit_char(d as int)]);
        }
    } else if d == 3 {
        out.append("3");
        proof {
            reveal_strlit("3");
            assert(out@ =~= old(out)@ + seq![digit_char(d as int)]);
        }
    } else if d == 4 {
        out.append("4");
        proof {
            reveal_strlit("4");
            assert(out@ =~= old(out)@ + seq![digit_char(d as int)]);
        }
    } else if d == 5 {
        out.append("5");
        proof {
            reveal_strlit("5");
            assert(out@ =~= old(out)@ + seq![digit_char(d as int)]);
        }
    } else if d == 6 {
        out.append("6");
        proof {
            reveal_strlit("6");
            assert(out@ =~= old(out)@ + seq![digit_char(d as int)]);
        }
    } else if d == 7 {
        out.append("7");
        proof {
            reveal_strlit("7");
            assert(out@ =~= old(out)@ + seq![digit_char(d as int)]);
        }
    } else if d == 8 {
        out.append("8");
        proof {
            reveal_strlit("8");
            assert(out@ =~= old(out)@ + seq![digit_char(d as int)]);
        }
    } else {
        out.append("9");
        proof {
            reveal_strlit("9");
            assert(out@ =~= old(out)@ + seq![digit_char(d as int)]);
        }
    }
}

/// Appends the decimal numeral of `x`, most significant digit first.
fn push_decimal(out: &mut String, x: u32)
    ensures
        final(out)@ == old(out)@ + dec_chars(x as nat),
    decreases x,
{
    if x >= 10 {
        push_decimal(out, x / 10);
        append_digit(out, x % 10);
        proof {
            assert(out@ =~= old(out)@ + dec_chars(x as nat));
        }
    } else {
        append_digit(out, x);
    }
}

} // verus!
