//! A small state machine that turns an input string into the token list of
//! the arithmetic expression language: decimal numbers, `+ - * /`, and
//! parentheses, separated by whitespace where needed.

use vstd::prelude::*;
use vstd::string::StrSliceExecFns;
use vstd::string::StringExecFns;

use crate::token::Operator;
use crate::token::Paren;
use crate::token::Token;

verus! {

/// A decimal digit.
pub open spec fn is_digit_char(c: char) -> bool {
    48 <= c as u32 <= 57
}

/// The numeric value of a decimal digit.
pub open spec fn digit_of(c: char) -> u32 {
    ((c as u32) - 48) as u32
}

/// The Unicode `White_Space` code points, the set `char::is_whitespace`
/// recognizes.
pub open spec fn is_whitespace_char(c: char) -> bool {
    ||| 9 <= c as u32 <= 13
    ||| c as u32 == 32
    ||| c as u32 == 133
    ||| c as u32 == 160
    ||| c as u32 == 0x1680
    ||| 0x2000 <= c as u32 <= 0x200A
    ||| c as u32 == 0x2028
    ||| c as u32 == 0x2029
    ||| c as u32 == 0x202F
    ||| c as u32 == 0x205F
    ||| c as u32 == 0x3000
}

/// The value of a digit sequence read as a decimal numeral.
pub open spec fn digits_val(ds: Seq<u32>) -> nat
    decreases ds.len(),
{
    if ds.len() == 0 {
        0
    } else {
        (digits_val(ds.drop_last()) * 10 + ds.last()) as nat
    }
}

/// Ending a pending numeral: nothing pending passes the tokens through, a
/// pending numeral is appended as a `Number` token, unless its value
/// overflows `u32` — then the error carries the integer-parse text.
pub open spec fn flush(tokens: Seq<Token>, pending: Seq<u32>) -> Result<Seq<Token>, Seq<char>> {
    if pending.len() == 0 {
        Ok(tokens)
    } else if digits_val(pending) <= u32::MAX {
        Ok(tokens.push(Token::Number(digits_val(pending) as u32)))
    } else {
        Err("number too large to fit in target type"@)
    }
}

/// The error reported for a character no token starts with.
pub open spec fn unexpected_token_msg(c: char) -> Seq<char> {
    "Unexpected token '"@ + seq![c] + "'"@
}

/// The tokenizer as a mathematical function: reading `s` from position `i`
/// with `tokens` already produced and the digits `pending` not yet ended.
pub open spec fn tok_from(tokens: Seq<Token>, pending: Seq<u32>, s: Seq<char>, i: int) -> Result<
    Seq<Token>,
    Seq<char>,
>
    decreases s.len() - i,
{
    if i < 0 || i >= s.len() {
        flush(tokens, pending)
    } else {
        let c = s[i];
        if is_digit_char(c) {
            tok_from(tokens, pending.push(digit_of(c)), s, i + 1)
        } else if is_whitespace_char(c) {
            match flush(tokens, pending) {
                Ok(ts) => tok_from(ts, Seq::empty(), s, i + 1),
                Err(e) => Err(e),
            }
        } else if c == '(' {
            match flush(tokens, pending) {
                Ok(ts) => tok_from(ts.push(Token::Paren(Paren::Left)), Seq::empty(), s, i + 1),
                Err(e) => Err(e),
            }
        } else if c == ')' {
            match flush(tokens, pending) {
                Ok(ts) => tok_from(ts.push(Token::Paren(Paren::Right)), Seq::empty(), s, i + 1),
                Err(e) => Err(e),
            }
        } else if c == '+' {
            match flush(tokens, pending) {
                Ok(ts) => tok_from(
                    ts.push(Token::Operator(Operator::Plus)),
                    Seq::empty(),
                    s,
                    i + 1,
                ),
                Err(e) => Err(e),
            }
        } else if c == '-' {
            match flush(tokens, pending) {
                Ok(ts) => tok_from(
                    ts.push(Token::Operator(Operator::Minus)),
                    Seq::empty(),
                    s,
                    i + 1,
                ),
                Err(e) => Err(e),
            }
        } else if c == '*' {
            match flush(tokens, pending) {
                Ok(ts) => tok_from(
                    ts.push(Token::Operator(Operator::Star)),
                    Seq::empty(),
                    s,
                    i + 1,
                ),
                Err(e) => Err(e),
            }
        } else if c == '/' {
            match flush(tokens, pending) {
                Ok(ts) => tok_from(
                    ts.push(Token::Operator(Operator::Slash)),
                    Seq::empty(),
                    s,
                    i + 1,
                ),
                Err(e) => Err(e),
            }
        } else {
            Err(unexpected_token_msg(c))
        }
    }
}

/// What tokenizing a whole string yields: the token list, or the error text
/// for the first unexpected character or overflowing numeral.
pub open spec fn spec_tokenize(s: Seq<char>) -> Result<Seq<Token>, Seq<char>> {
    tok_from(Seq::empty(), Seq::empty(), s, 0)
}

enum TokenizerState {
    WhiteSpace,
    Operator,
    Number(Vec<u32>),
    Paren,
    Start,
}

pub struct Tokenizer {
    tokens: Vec<Token>,
    state: TokenizerState,
}

impl Tokenizer {
    /// The tokens produced so far.
    pub closed spec fn toks(self) -> Seq<Token> {
        self.tokens@
    }

    /// The digits of the numeral currently being read, oldest first.
    pub closed spec fn pending(self) -> Seq<u32> {
        match self.state {
            TokenizerState::Number(ds) => ds@,
            _ => Seq::empty(),
        }
    }

    /// A numeral in progress always holds at least one digit.
    pub closed spec fn wf(self) -> bool {
        match self.state {
            TokenizerState::Number(ds) => ds@.len() > 0,
            _ => true,
        }
    }

    /// If the tokenizer is in the middle of a numeral, turn the digits read
    /// so far into a `Number` token; fails when the value overflows `u32`.
    fn end_number_if_necessary(&mut self) -> (r: Result<(), String>)
        requires
            old(self).wf(),
        ensures
            final(self).wf(),
            match flush(old(self).toks(), old(self).pending()) {
                Ok(ts) => r is Ok && final(self).toks() == ts && final(self).pending() == old(self).pending(),
                Err(msg) => (r matches Err(e) && e@ == msg) && *final(self) == *old(self),
            },
    {
        proof {
            reveal_strlit("number too large to fit in target type");
        }
        match &self.state {
            TokenizerState::Number(ds) => {
                match parse_digits(ds) {
                    Some(num) => {
                        self.tokens.push(Token::Number(num));
                        Ok(())
                    },
                    None => Err(String::from_str("number too large to fit in target type")),
                }
            },
            _ => Ok(()),
        }
    }

    fn whitespace(&mut self) -> (r: Result<(), String>)
        requires
            old(self).wf(),
        ensures
            final(self).wf(),
            match flush(old(self).toks(), old(self).pending()) {
                Ok(ts) => r is Ok && final(self).toks() == ts && final(self).pending()
                    == Seq::<u32>::empty(),
                Err(msg) => (r matches Err(e) && e@ == msg) && *final(self) == *old(self),
            },
    {
        self.end_number_if_necessary()?;
        self.state = TokenizerState::WhiteSpace;
        Ok(())
    }

    fn operation(&mut self, op: Operator) -> (r: Result<(), String>)
        requires
            old(self).wf(),
        ensures
            final(self).wf(),
            match flush(old(self).toks(), old(self).pending()) {
                Ok(ts) => r is Ok && final(self).toks() == ts.push(Token::Operator(op)) && final(self).pending() == Seq::<u32>::empty(),
                Err(msg) => (r matches Err(e) && e@ == msg) && *final(self) == *old(self),
            },
    {
        self.end_number_if_necessary()?;
        self.state = TokenizerState::Operator;
        self.tokens.push(Token::Operator(op));
        Ok(())
    }

    fn digit(&mut self, digit: char) -> (r: Result<(), String>)
        requires
            old(self).wf(),
            is_digit_char(digit),
        ensures
            final(self).wf(),
            r is Ok,
            final(self).toks() == old(self).toks(),
            final(self).pending() == old(self).pending().push(digit_of(digit)),
    {
        let d: u32 = (digit as u32) - 48;
        match &mut self.state {
            TokenizerState::Number(ds) => {
                ds.push(d);
            },
            _ => {
                let mut ds: Vec<u32> = Vec::new();
                ds.push(d);
                proof {
                    assert(ds@ =~= Seq::<u32>::empty().push(d));
                }
                self.state = TokenizerState::Number(ds);
            },
        }
        Ok(())
    }

    fn paren(&mut self, paren: Paren) -> (r: Result<(), String>)
        requires
            old(self).wf(),
        ensures
            final(self).wf(),
            match flush(old(self).toks(), old(self).pending()) {
                Ok(ts) => r is Ok && final(self).toks() == ts.push(Token::Paren(paren)) && final(self).pending() == Seq::<u32>::empty(),
                Err(msg) => (r matches Err(e) && e@ == msg) && *final(self) == *old(self),
            },
    {
        self.end_number_if_necessary()?;
        self.state = TokenizerState::Paren;
        self.tokens.push(Token::Paren(paren));
        Ok(())
    }

    fn get_tokens(self) -> (r: Result<Vec<Token>, String>)
        requires
            self.wf(),
        ensures
            match flush(self.toks(), self.pending()) {
                Ok(ts) => r matches Ok(v) && v@ == ts,
                Err(msg) => r matches Err(e) && e@ == msg,
            },
    {
        let mut this = self;
        this.end_number_if_necessary()?;
        Ok(this.tokens)
    }

    /// Tokenizes a whole input string.  Succeeds exactly when the input
    /// holds nothing but digits, whitespace, parentheses and the four
    /// operators, with every numeral fitting in a `u32`.
    pub fn tokenize(input: String) -> (r: Result<Vec<Token>, String>)
        ensures
            r is Ok <==> spec_tokenize(input@) is Ok,
            r matches Ok(ts) ==> Ok::<Seq<Token>, Seq<char>>(ts@) == spec_tokenize(input@),
            r matches Err(e) ==> (spec_tokenize(input@) matches Err(msg) && e@ == msg),
    {
        let mut tokenizer = Tokenizer { tokens: Vec::new(), state: TokenizerState::Start };
        proof {
            assert(tokenizer.toks() =~= Seq::<Token>::empty());
            assert(tokenizer.pending() =~= Seq::<u32>::empty());
        }
        let s = input.as_str();
        let n = s.unicode_len();
        let mut i: usize = 0;
        while i < n
            invariant
                tokenizer.wf(),
                0 <= i <= n,
                n == s@.len(),
                s@ == input@,
                tok_from(tokenizer.toks(), tokenizer.pending(), input@, i as int) == spec_tokenize(
                    input@,
                ),
            decreases n - i,
        {
            let c = s.get_char(i);
            let u = c as u32;
            if 48 <= u && u <= 57 {
                tokenizer.digit(c)?;
            } else if is_whitespace(c) {
                tokenizer.whitespace()?;
            } else if c == '(' {
                tokenizer.paren(Paren::Left)?;
            } else if c == ')' {
                tokenizer.paren(Paren::Right)?;
            } else if c == '+' {
                tokenizer.operation(Operator::Plus)?;
            } else if c == '-' {
                tokenizer.operation(Operator::Minus)?;
            } else if c == '*' {
                tokenizer.operation(Operator::Star)?;
            } else if c == '/' {
                tokenizer.operation(Operator::Slash)?;
            } else {
                let mut msg = String::from_str("Unexpected token '");
                msg.append(s.substring_char(i, i + 1));
                msg.append("'");
                proof {
                    reveal_strlit("Unexpected token '");
                    reveal_strlit("'");
                    assert(input@.subrange(i as int, i + 1) =~= seq![input@[i as int]]);
                    assert(msg@ =~= unexpected_token_msg(input@[i as int]));
                }
                return Err(msg);
            }
            i += 1;
        }
        tokenizer.get_tokens()
    }
}

/// The exact set recognized by `char::is_whitespace`, written out.
fn is_whitespace(c: char) -> (r: bool)
    ensures
        r == is_whitespace_char(c),
{
    let u = c as u32;
    (9 <= u && u <= 13) || u == 32 || u == 133 || u == 160 || u == 0x1680 || (0x2000 <= u && u
        <= 0x200A) || u == 0x2028 || u == 0x2029 || u == 0x202F || u == 0x205F || u == 0x3000
}

/// Reads a digit sequence as a decimal `u32`; `None` exactly on overflow.
fn parse_digits(ds: &Vec<u32>) -> (r: Option<u32>)
    ensures
        r is Some <==> digits_val(ds@) <= u32::MAX,
        r matches Some(v) ==> v == digits_val(ds@),
{
    let mut acc: u32 = 0;
    let mut i: usize = 0;
    while i < ds.len()
        invariant
            0 <= i <= ds@.len(),
            acc == digits_val(ds@.take(i as int)),
        decreases ds@.len() - i,
    {
        proof {
            assert(ds@.take(i + 1).drop_last() =~= ds@.take(i as int));
            assert(ds@.take(i + 1).last() == ds@[i as int]);
        }
        let d = ds[i];
        let shifted = match acc.checked_mul(10) {
            Some(x) => x,
            None => {
                proof {
                    lemma_digits_val_prefix(ds@, i + 1);
                }
                return None;
            },
        };
        acc = match shifted.checked_add(d) {
            Some(x) => x,
            None => {
                proof {
                    lemma_digits_val_prefix(ds@, i + 1);
                }
                return None;
            },
        };
        i += 1;
    }
    proof {
        assert(ds@.take(ds@.len() as int) =~= ds@);
    }
    Some(acc)
}

/// A decimal numeral is at least as large as any of its prefixes.
proof fn lemma_digits_val_prefix(ds: Seq<u32>, i: int)
    requires
        0 <= i <= ds.len(),
    ensures
        digits_val(ds) >= digits_val(ds.take(i)),
    decreases ds.len() - i,
{
    if i == ds.len() {
        assert(ds.take(i) =~= ds);
    } else {
        lemma_digits_val_prefix(ds, i + 1);
        assert(ds.take(i + 1).drop_last() =~= ds.take(i));
        assert(digits_val(ds.take(i + 1)) == digits_val(ds.take(i)) * 10 + ds.take(i + 1).last());
        assert(digits_val(ds.take(i)) * 10 >= digits_val(ds.take(i)));
    }
}

} // verus!
