use vstd::prelude::*;

use crate::chars::{
    alpha_char, chars_of, chars_range, digit_char, is_alpha_char, is_digit_char, is_num_char,
    is_ws_char, num_char, string_from_chars, to_upper, upper_char, upper_seq, ws_char,
};
use crate::decimal::{dec_value, digit_val};
use crate::token::{Token, TokenModel};

verus! {

/// The first position at or after `pos` holding a non-whitespace character.
pub open spec fn skip_ws(text: Seq<char>, pos: nat) -> nat
    decreases text.len() - pos,
{
    if pos < text.len() && is_ws_char(text[pos as int]) {
        skip_ws(text, (pos + 1) as nat)
    } else {
        pos
    }
}

pub proof fn lemma_skip_ws(text: Seq<char>, pos: nat)
    requires
        pos <= text.len(),
    ensures
        pos <= skip_ws(text, pos) <= text.len(),
    decreases text.len() - pos,
{
    if pos < text.len() && is_ws_char(text[pos as int]) {
        lemma_skip_ws(text, (pos + 1) as nat);
    }
}

/// The end of the run of characters satisfying `p` that starts at `pos`.
pub open spec fn scan_while(text: Seq<char>, pos: nat, p: spec_fn(char) -> bool) -> nat
    decreases text.len() - pos,
{
    if pos < text.len() && p(text[pos as int]) {
        scan_while(text, (pos + 1) as nat, p)
    } else {
        pos
    }
}

pub proof fn lemma_scan_while(text: Seq<char>, pos: nat, p: spec_fn(char) -> bool)
    requires
        pos <= text.len(),
    ensures
        pos <= scan_while(text, pos, p) <= text.len(),
        forall|j: int| pos <= j < scan_while(text, pos, p) ==> p(#[trigger] text[j]),
    decreases text.len() - pos,
{
    if pos < text.len() && p(text[pos as int]) {
        lemma_scan_while(text, (pos + 1) as nat, p);
    }
}

pub open spec fn digit_pred() -> spec_fn(char) -> bool {
    |c: char| is_digit_char(c)
}

pub open spec fn alpha_pred() -> spec_fn(char) -> bool {
    |c: char| is_alpha_char(c)
}

pub open spec fn num_pred() -> spec_fn(char) -> bool {
    |c: char| is_num_char(c)
}

/// The position of the first double quote at or after `pos`, if any.
pub open spec fn find_quote(text: Seq<char>, pos: nat) -> Option<nat>
    decreases text.len() - pos,
{
    if pos >= text.len() {
        None
    } else if text[pos as int] == '"' {
        Some(pos)
    } else {
        find_quote(text, (pos + 1) as nat)
    }
}

pub proof fn lemma_find_quote(text: Seq<char>, pos: nat)
    requires
        pos <= text.len(),
    ensures
        match find_quote(text, pos) {
            Some(q) => pos <= q < text.len() && text[q as int] == '"',
            None => true,
        },
    decreases text.len() - pos,
{
    if pos < text.len() && text[pos as int] != '"' {
        lemma_find_quote(text, (pos + 1) as nat);
    }
}

pub open spec fn nil_text() -> Seq<char> {
    seq!['N', 'I', 'L']
}

/// The largest magnitude a number token may carry: `i64::MIN` when the
/// literal is negative, `i64::MAX` otherwise.
pub open spec fn mag_limit(neg: bool) -> int {
    if neg {
        0x8000_0000_0000_0000
    } else {
        0x7fff_ffff_ffff_ffff
    }
}

/// The token for a numeric literal starting at `pos` (a digit, or a sign
/// directly followed by a digit), and the position after it.  The literal's
/// span is the run of digits and decimal points; its value is the integer
/// part, digits after the first point being cut off.  A value beyond the
/// 64-bit range makes the span an `Illegal` token.
pub open spec fn scan_number(text: Seq<char>, pos: nat) -> (TokenModel, nat) {
    let neg = text[pos as int] == '-';
    let d0: nat = if text[pos as int] == '-' || text[pos as int] == '+' {
        (pos + 1) as nat
    } else {
        pos
    };
    let de = scan_while(text, d0, digit_pred());
    let e = scan_while(text, de, num_pred());
    let mag = dec_value(text.subrange(d0 as int, de as int));
    if mag <= mag_limit(neg) {
        (TokenModel::Number(if neg { -mag } else { mag }), e)
    } else {
        (TokenModel::Illegal(text.subrange(pos as int, e as int)), e)
    }
}

/// The token for a literal starting at `pos` (an ASCII letter): `True` for a
/// lone `t` that ends the input, else the letter run folded to uppercase,
/// which is `Nil` when it spells `NIL` and a `Literal` otherwise.
pub open spec fn scan_literal(text: Seq<char>, pos: nat) -> (TokenModel, nat) {
    if text[pos as int] == 't' && pos + 1 >= text.len() {
        (TokenModel::True, (pos + 1) as nat)
    } else {
        let e = scan_while(text, pos, alpha_pred());
        let w = upper_seq(text.subrange(pos as int, e as int));
        if w == nil_text() {
            (TokenModel::Nil, e)
        } else {
            (TokenModel::Literal(w), e)
        }
    }
}

/// The next token at or after `pos`, and the position after it.
pub open spec fn spec_token(text: Seq<char>, pos: nat) -> (TokenModel, nat) {
    let p = skip_ws(text, pos);
    if p >= text.len() {
        (TokenModel::Eof, p)
    } else {
        let c = text[p as int];
        if c == '(' {
            (TokenModel::Lparen, (p + 1) as nat)
        } else if c == ')' {
            (TokenModel::Rparen, (p + 1) as nat)
        } else if c == '*' {
            (TokenModel::Asterfisk, (p + 1) as nat)
        } else if c == '/' {
            (TokenModel::Slash, (p + 1) as nat)
        } else if c == '+' {
            if p + 1 < text.len() && is_digit_char(text[p as int + 1]) {
                scan_number(text, p)
            } else {
                (TokenModel::Plus, (p + 1) as nat)
            }
        } else if c == '-' {
            if p + 1 < text.len() && is_digit_char(text[p as int + 1]) {
                scan_number(text, p)
            } else {
                (TokenModel::Minus, (p + 1) as nat)
            }
        } else if is_digit_char(c) {
            scan_number(text, p)
        } else if c == '"' {
            match find_quote(text, (p + 1) as nat) {
                Some(q) => (TokenModel::String(text.subrange(p as int + 1, q as int)), (q + 1) as nat),
                None => (TokenModel::Illegal(seq!['"']), text.len()),
            }
        } else if is_alpha_char(c) {
            scan_literal(text, p)
        } else {
            (TokenModel::Illegal(seq![c]), (p + 1) as nat)
        }
    }
}

/// The position after a token never runs past the end, and it advances for
/// every token but `Eof`.
pub proof fn lemma_spec_token_bounds(text: Seq<char>, pos: nat)
    requires
        pos <= text.len(),
    ensures
        ({
            let (t, p2) = spec_token(text, pos);
            &&& pos <= p2 <= text.len()
            &&& (t != TokenModel::Eof ==> p2 > pos)
        }),
{
    lemma_skip_ws(text, pos);
    let p = skip_ws(text, pos);
    if p < text.len() {
        let c = text[p as int];
        if c == '+' || c == '-' || is_digit_char(c) {
            if c == '+' || c == '-' {
                if p + 1 < text.len() && is_digit_char(text[p as int + 1]) {
                    lemma_scan_number_bounds(text, p);
                }
            } else {
                lemma_scan_number_bounds(text, p);
            }
        } else if c == '"' {
            lemma_find_quote(text, (p + 1) as nat);
        } else if is_alpha_char(c) {
            if !(c == 't' && p + 1 >= text.len()) {
                assert(alpha_pred()(c));
                assert(scan_while(text, p, alpha_pred()) == scan_while(
                    text,
                    (p + 1) as nat,
                    alpha_pred(),
                ));
                lemma_scan_while(text, (p + 1) as nat, alpha_pred());
            }
        }
    }
}

pub proof fn lemma_scan_number_bounds(text: Seq<char>, pos: nat)
    requires
        pos < text.len(),
        is_digit_char(text[pos as int]) || ((text[pos as int] == '-' || text[pos as int] == '+')
            && pos + 1 < text.len() && is_digit_char(text[pos as int + 1])),
    ensures
        ({
            let (t, p2) = scan_number(text, pos);
            pos < p2 <= text.len()
        }),
{
    let d0: nat = if text[pos as int] == '-' || text[pos as int] == '+' {
        (pos + 1) as nat
    } else {
        pos
    };
    lemma_scan_while(text, d0, digit_pred());
    let de = scan_while(text, d0, digit_pred());
    lemma_scan_while(text, de, num_pred());
    if d0 == pos {
        assert(scan_while(text, d0, digit_pred()) == scan_while(text, (d0 + 1) as nat, digit_pred()));
        lemma_scan_while(text, (d0 + 1) as nat, digit_pred());
    }
}

/// Exhaustion is stable: a token read at the position an `Eof` left ends
/// in `Eof` again, at the same position, indefinitely.
pub proof fn lemma_eof_idempotent(text: Seq<char>, pos: nat)
    requires
        pos <= text.len(),
    ensures
        ({
            let (t, p) = spec_token(text, pos);
            t == TokenModel::Eof ==> spec_token(text, p) == (TokenModel::Eof, p)
        }),
{
    lemma_skip_ws(text, pos);
}

/// The pull-based tokenizer: a cursor over the characters of one line.
pub struct Lexer {
    input: Vec<char>,
    pos: usize,
}

pub struct LexerModel {
    pub text: Seq<char>,
    pub pos: nat,
}

impl View for Lexer {
    type V = LexerModel;

    closed spec fn view(&self) -> LexerModel {
        LexerModel { text: self.input@, pos: self.pos as nat }
    }
}

impl Lexer {
    /// The cursor never runs past the end of the input.
    pub open spec fn wf(&self) -> bool {
        self@.pos <= self@.text.len()
    }

    pub fn new(input: String) -> (r: Lexer)
        ensures
            r.wf(),
            r@.text == input@,
            r@.pos == 0,
    {
        Lexer { input: chars_of(input.as_str()), pos: 0 }
    }

    /// Produces the next token and advances the cursor past it; at the end
    /// of input it yields `Eof` without moving.
    pub fn next_token(&mut self) -> (t: Token)
        requires
            old(self).wf(),
        ensures
            final(self).wf(),
            final(self)@.text == old(self)@.text,
            ({
                let (tm, p2) = spec_token(old(self)@.text, old(self)@.pos);
                t@ == tm && final(self)@.pos == p2
            }),
    {
        let ghost text = self.input@;
        let ghost pos0 = self.pos as nat;
        while self.pos < self.input.len() && ws_char(self.input[self.pos])
            invariant
                self.input@ == text,
                self.pos <= text.len(),
                skip_ws(text, pos0) == skip_ws(text, self.pos as nat),
            decreases text.len() - self.pos,
        {
            self.pos = self.pos + 1;
        }
        proof {
            assert(skip_ws(text, pos0) == self.pos as nat);
        }
        if self.pos >= self.input.len() {
            return Token::Eof;
        }
        let c = self.input[self.pos];
        if c == '(' {
            self.pos = self.pos + 1;
            Token::Lparen
        } else if c == ')' {
            self.pos = self.pos + 1;
            Token::Rparen
        } else if c == '*' {
            self.pos = self.pos + 1;
            Token::Asterfisk
        } else if c == '/' {
            self.pos = self.pos + 1;
            Token::Slash
        } else if c == '+' || c == '-' {
            if self.pos + 1 < self.input.len() && digit_char(self.input[self.pos + 1]) {
                self.read_as_number()
            } else {
                self.pos = self.pos + 1;
                if c == '+' {
                    Token::Plus
                } else {
                    Token::Minus
                }
            }
        } else if digit_char(c) {
            self.read_as_number()
        } else if c == '"' {
            self.read_as_string()
        } else if alpha_char(c) {
            self.read_as_literal()
        } else {
            self.pos = self.pos + 1;
            let mut v: Vec<char> = Vec::new();
            v.push(c);
            proof {
                assert(v@ =~= seq![c]);
            }
            Token::Illegal(string_from_chars(v.as_slice()))
        }
    }

    fn read_as_number(&mut self) -> (t: Token)
        requires
            old(self).wf(),
            old(self)@.pos < old(self)@.text.len(),
            ({
                let text = old(self)@.text;
                let p = old(self)@.pos;
                is_digit_char(text[p as int]) || ((text[p as int] == '-' || text[p as int] == '+')
                    && p + 1 < text.len() && is_digit_char(text[p as int + 1]))
            }),
        ensures
            final(self).wf(),
            final(self)@.text == old(self)@.text,
            ({
                let (tm, p2) = scan_number(old(self)@.text, old(self)@.pos);
                t@ == tm && final(self)@.pos == p2
            }),
    {
        let ghost text = self.input@;
        let n = self.input.len();
        let start = self.pos;
        let c0 = self.input[self.pos];
        let neg = c0 == '-';
        if c0 == '-' || c0 == '+' {
            self.pos = self.pos + 1;
        }
        let d0 = self.pos;
        let limit: u64 = if neg {
            0x8000_0000_0000_0000
        } else {
            0x7fff_ffff_ffff_ffff
        };
        let mut mag: u64 = 0;
        let mut over: bool = false;
        proof {
            assert(text.subrange(d0 as int, d0 as int) =~= Seq::<char>::empty());
        }
        while self.pos < self.input.len() && digit_char(self.input[self.pos])
            invariant
                self.input@ == text,
                start <= d0 <= self.pos <= text.len(),
                limit == mag_limit(neg),
                scan_while(text, d0 as nat, digit_pred()) == scan_while(
                    text,
                    self.pos as nat,
                    digit_pred(),
                ),
                !over ==> mag as int == dec_value(text.subrange(d0 as int, self.pos as int)) && mag
                    <= limit,
                over ==> dec_value(text.subrange(d0 as int, self.pos as int)) > limit,
            decreases text.len() - self.pos,
        {
            let ch = self.input[self.pos];
            let d: u64 = ((ch as u8) - 48) as u64;
            proof {
                assert(d as int == digit_val(ch));
                assert(text.subrange(d0 as int, self.pos as int + 1).drop_last() =~= text.subrange(
                    d0 as int,
                    self.pos as int,
                ));
                assert(dec_value(text.subrange(d0 as int, self.pos as int + 1)) == dec_value(
                    text.subrange(d0 as int, self.pos as int),
                ) * 10 + d);
            }
            if !over {
                let wide: u128 = (mag as u128) * 10 + (d as u128);
                if wide > (limit as u128) {
                    over = true;
                } else {
                    mag = wide as u64;
                }
            } else {
                proof {
                    let v0 = dec_value(text.subrange(d0 as int, self.pos as int));
                    assert(v0 * 10 + d > limit) by (nonlinear_arith)
                        requires
                            v0 > limit,
                            limit >= 0,
                            d >= 0,
                    ;
                }
            }
            self.pos = self.pos + 1;
        }
        let ghost de = self.pos as nat;
        proof {
            assert(scan_while(text, d0 as nat, digit_pred()) == de);
        }
        while self.pos < self.input.len() && num_char(self.input[self.pos])
            invariant
                self.input@ == text,
                de <= self.pos <= text.len(),
                start <= de,
                scan_while(text, de, num_pred()) == scan_while(text, self.pos as nat, num_pred()),
            decreases text.len() - self.pos,
        {
            self.pos = self.pos + 1;
        }
        proof {
            assert(scan_while(text, de, num_pred()) == self.pos as nat);
        }
        if over {
            let span = chars_range(&self.input, start, self.pos);
            Token::Illegal(string_from_chars(span.as_slice()))
        } else if neg {
            if mag == limit {
                Token::Number(i64::MIN)
            } else {
                Token::Number(-(mag as i64))
            }
        } else {
            Token::Number(mag as i64)
        }
    }

    fn read_as_string(&mut self) -> (t: Token)
        requires
            old(self).wf(),
            old(self)@.pos < old(self)@.text.len(),
            old(self)@.text[old(self)@.pos as int] == '"',
        ensures
            final(self).wf(),
            final(self)@.text == old(self)@.text,
            ({
                let text = old(self)@.text;
                let p = old(self)@.pos;
                match find_quote(text, (p + 1) as nat) {
                    Some(q) => t@ == TokenModel::String(text.subrange(p as int + 1, q as int))
                        && final(self)@.pos == q + 1,
                    None => t@ == TokenModel::Illegal(seq!['"']) && final(self)@.pos == text.len(),
                }
            }),
    {
        let ghost text = self.input@;
        let n = self.input.len();
        let start = self.pos + 1;
        let mut i = start;
        while i < self.input.len() && self.input[i] != '"'
            invariant
                self.input@ == text,
                start <= i <= text.len(),
                find_quote(text, start as nat) == find_quote(text, i as nat),
            decreases text.len() - i,
        {
            i = i + 1;
        }
        if i < self.input.len() {
            proof {
                assert(find_quote(text, start as nat) == Some(i as nat));
            }
            let content = chars_range(&self.input, start, i);
            self.pos = i + 1;
            Token::String(string_from_chars(content.as_slice()))
        } else {
            proof {
                assert(find_quote(text, start as nat) is None);
            }
            self.pos = self.input.len();
            proof {
                reveal_strlit("\"");
                assert("\""@ =~= seq!['"']);
            }
            Token::Illegal(String::from_str("\""))
        }
    }

    fn read_as_literal(&mut self) -> (t: Token)
        requires
            old(self).wf(),
            old(self)@.pos < old(self)@.text.len(),
            is_alpha_char(old(self)@.text[old(self)@.pos as int]),
        ensures
            final(self).wf(),
            final(self)@.text == old(self)@.text,
            ({
                let (tm, p2) = scan_literal(old(self)@.text, old(self)@.pos);
                t@ == tm && final(self)@.pos == p2
            }),
    {
        let ghost text = self.input@;
        let n = self.input.len();
        let start = self.pos;
        if self.input[self.pos] == 't' && self.pos + 1 >= n {
            self.pos = self.pos + 1;
            return Token::True;
        }
        while self.pos < self.input.len() && alpha_char(self.input[self.pos])
            invariant
                self.input@ == text,
                start <= self.pos <= text.len(),
                scan_while(text, start as nat, alpha_pred()) == scan_while(
                    text,
                    self.pos as nat,
                    alpha_pred(),
                ),
            decreases text.len() - self.pos,
        {
            self.pos = self.pos + 1;
        }
        proof {
            assert(scan_while(text, start as nat, alpha_pred()) == self.pos as nat);
        }
        let mut w: Vec<char> = Vec::new();
        let mut i = start;
        proof {
            assert(upper_seq(text.subrange(start as int, start as int)) =~= Seq::<char>::empty());
        }
        while i < self.pos
            invariant
                self.input@ == text,
                start <= i <= self.pos <= text.len(),
                w@ == upper_seq(text.subrange(start as int, i as int)),
            decreases self.pos - i,
        {
            w.push(to_upper(self.input[i]));
            proof {
                assert(w@ =~= upper_seq(text.subrange(start as int, i as int + 1)));
            }
            i = i + 1;
        }
        if w.len() == 3 && w[0] == 'N' && w[1] == 'I' && w[2] == 'L' {
            proof {
                assert(w@ =~= nil_text());
            }
            Token::Nil
        } else {
            proof {
                assert(w@ != nil_text());
            }
            Token::Literal(string_from_chars(w.as_slice()))
        }
    }
}

} // verus!
