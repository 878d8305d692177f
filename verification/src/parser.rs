use vstd::prelude::*;

use crate::ast::{Expr, ExprErr, ExprModel};
use crate::lexer::{lemma_spec_token_bounds, spec_token, Lexer, LexerModel};
use crate::token::{Token, TokenModel};

verus! {

/// The expression parsed at `pos` (or a failure on an illegal token) and
/// the cursor position after it.  `Eof` and `Rparen` parse as `Nil`, the
/// sentinel that ends a list, so a stray `)` or the end of input parses as
/// `Nil` at top level, and an explicit `NIL` element ends its list early.
pub open spec fn spec_parse(text: Seq<char>, pos: nat) -> (Result<ExprModel, ()>, nat)
    decreases text.len() - pos, 0int,
{
    let (t, p1) = spec_token(text, pos);
    match t {
        TokenModel::Number(n) => (Ok(ExprModel::Number(n)), p1),
        TokenModel::String(s) => (Ok(ExprModel::String(s)), p1),
        TokenModel::Literal(s) => (Ok(ExprModel::Symbol(s)), p1),
        TokenModel::Asterfisk => (Ok(ExprModel::Symbol("*"@)), p1),
        TokenModel::Minus => (Ok(ExprModel::Symbol("-"@)), p1),
        TokenModel::Plus => (Ok(ExprModel::Symbol("+"@)), p1),
        TokenModel::Slash => (Ok(ExprModel::Symbol("/"@)), p1),
        TokenModel::True => (Ok(ExprModel::True), p1),
        TokenModel::Nil => (Ok(ExprModel::Nil), p1),
        TokenModel::Illegal(_) => (Err(()), p1),
        TokenModel::Eof => (Ok(ExprModel::Nil), p1),
        TokenModel::Rparen => (Ok(ExprModel::Nil), p1),
        TokenModel::Lparen => {
            if pos < p1 <= text.len() {
                spec_parse_list(text, p1, Seq::empty())
            } else {
                (Err(()), p1)
            }
        },
    }
}

/// Accumulates children onto `acc` until a parse yields the `Nil` sentinel,
/// which closes the list.  The two guards hold on every reachable call; see
/// `lemma_spec_parse_bounds`.
pub open spec fn spec_parse_list(text: Seq<char>, pos: nat, acc: Seq<ExprModel>) -> (Result<
    ExprModel,
    (),
>, nat)
    decreases text.len() - pos, 1int,
{
    if pos > text.len() {
        (Err(()), pos)
    } else {
        let (r, p2) = spec_parse(text, pos);
        match r {
            Err(e) => (Err(e), p2),
            Ok(child) => if child == ExprModel::Nil {
                (Ok(ExprModel::List(acc)), p2)
            } else if pos < p2 <= text.len() {
                spec_parse_list(text, p2, acc.push(child))
            } else {
                (Err(()), p2)
            },
        }
    }
}

/// A parse never moves the cursor backwards or past the end, and any result
/// other than the `Nil` sentinel consumes at least one character.
pub proof fn lemma_spec_parse_bounds(text: Seq<char>, pos: nat)
    requires
        pos <= text.len(),
    ensures
        ({
            let (r, p2) = spec_parse(text, pos);
            &&& pos <= p2 <= text.len()
            &&& ((r matches Ok(m) && m != ExprModel::Nil) ==> p2 > pos)
        }),
    decreases text.len() - pos, 0int,
{
    lemma_spec_token_bounds(text, pos);
    let (t, p1) = spec_token(text, pos);
    if t is Lparen {
        lemma_spec_parse_list_bounds(text, p1, Seq::empty());
    }
}

pub proof fn lemma_spec_parse_list_bounds(text: Seq<char>, pos: nat, acc: Seq<ExprModel>)
    requires
        pos <= text.len(),
    ensures
        ({
            let (r, p2) = spec_parse_list(text, pos, acc);
            pos <= p2 <= text.len()
        }),
    decreases text.len() - pos, 1int,
{
    lemma_spec_parse_bounds(text, pos);
    let (r, p2) = spec_parse(text, pos);
    match r {
        Ok(child) => {
            if child != ExprModel::Nil && pos < p2 <= text.len() {
                lemma_spec_parse_list_bounds(text, p2, acc.push(child));
            }
        },
        Err(_) => {},
    }
}

/// The recursive-descent parser: builds one expression tree per call from
/// the tokens of its lexer.
pub struct Parser {
    lexer: Lexer,
}

impl View for Parser {
    type V = LexerModel;

    closed spec fn view(&self) -> LexerModel {
        self.lexer@
    }
}

impl Parser {
    pub closed spec fn wf(&self) -> bool {
        self.lexer.wf()
    }

    pub fn new(lexer: Lexer) -> (r: Parser)
        ensures
            r.wf() == lexer.wf(),
            r@ == lexer@,
    {
        Parser { lexer }
    }

    /// Consumes tokens for one complete, possibly nested expression and
    /// returns its tree, or the parse failure for an illegal token.
    pub fn parse(&mut self) -> (r: Result<Expr, ExprErr>)
        requires
            old(self).wf(),
        ensures
            final(self).wf(),
            final(self)@.text == old(self)@.text,
            ({
                let (sr, p2) = spec_parse(old(self)@.text, old(self)@.pos);
                &&& final(self)@.pos == p2
                &&& match r {
                    Ok(e) => sr matches Ok(m) && e@ == m,
                    Err(_) => sr is Err,
                }
            }),
        decreases old(self)@.text.len() - old(self)@.pos,
    {
        let ghost text = self@.text;
        let ghost pos0 = self@.pos;
        proof {
            lemma_spec_token_bounds(text, pos0);
        }
        let token = self.lexer.next_token();
        match token {
            Token::Number(num) => Ok(Expr::Number(num)),
            Token::String(s) => Ok(Expr::String(s)),
            Token::Literal(symbol) => Ok(Expr::Symbol(symbol)),
            Token::Asterfisk => Ok(Expr::Symbol(String::from_str("*"))),
            Token::Minus => Ok(Expr::Symbol(String::from_str("-"))),
            Token::Plus => Ok(Expr::Symbol(String::from_str("+"))),
            Token::Slash => Ok(Expr::Symbol(String::from_str("/"))),
            Token::True => Ok(Expr::True),
            Token::Nil => Ok(Expr::Nil),
            Token::Illegal(tok) => {
                let mut msg = String::from_str("invalid token: ");
                msg.append(tok.as_str());
                Err(ExprErr::Cause(msg))
            },
            Token::Eof => Ok(Expr::Nil),
            Token::Rparen => Ok(Expr::Nil),
            Token::Lparen => {
                let mut list: Vec<Expr> = Vec::new();
                proof {
                    assert(Expr::model_seq(list@) =~= Seq::<ExprModel>::empty());
                }
                loop
                    invariant
                        text == old(self)@.text,
                        pos0 == old(self)@.pos,
                        self.wf(),
                        self@.text == text,
                        pos0 < self@.pos <= text.len(),
                        spec_parse(text, pos0) == spec_parse_list(
                            text,
                            self@.pos,
                            Expr::model_seq(list@),
                        ),
                    decreases text.len() - self@.pos,
                {
                    let ghost prev = self@.pos;
                    proof {
                        lemma_spec_parse_bounds(text, prev);
                    }
                    let child = match self.parse() {
                        Ok(c) => c,
                        Err(e) => {
                            return Err(e);
                        },
                    };
                    if child.is_nil() {
                        return Ok(Expr::List(list));
                    }
                    proof {
                        Expr::model_seq_push(list@, child);
                    }
                    list.push(child);
                }
            },
        }
    }
}

} // verus!
