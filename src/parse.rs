use crate::common::{code_view, Instr, Number, NumberView, Obj, OpCode, OpView, Value, ValueView};
use crate::tokens::{binding_power, Kind, Token, TokenType, TokenView, Tokenizer};
use std::rc::Rc;
use vstd::prelude::*;

verus! {

/// Instructions as views, each with its source line.
pub type Code = Seq<(OpView, int)>;

/// What a successful parse gives: the instructions and the tokens left over.
pub type Parsed = Option<(Code, Seq<TokenView>)>;

/// One constant instruction.
pub open spec fn constant(v: ValueView, line: int) -> Code {
    seq![(OpView::Constant(v), line)]
}

/// The instructions that an infix operator appends after its two operands;
/// `None` for a token that is no infix operator. `>=`, `<=` and `!=` are
/// written as a comparison followed by a negation.
pub open spec fn infix_ops(k: Kind, line: int) -> Option<Code> {
    match k {
        Kind::Plus => Some(seq![(OpView::Add, line)]),
        Kind::Minus => Some(seq![(OpView::Subtract, line)]),
        Kind::Star => Some(seq![(OpView::Multiply, line)]),
        Kind::Slash => Some(seq![(OpView::Divide, line)]),
        Kind::Greater => Some(seq![(OpView::Greater, line)]),
        Kind::Less => Some(seq![(OpView::Less, line)]),
        Kind::EqualEqual => Some(seq![(OpView::Equal, line)]),
        Kind::BangEqual => Some(seq![(OpView::Equal, line), (OpView::Not, line)]),
        Kind::GreaterEqual => Some(seq![(OpView::Less, line), (OpView::Not, line)]),
        Kind::LessEqual => Some(seq![(OpView::Greater, line), (OpView::Not, line)]),
        _ => None,
    }
}

/// Appends `ops` to the instructions of a successful parse.
pub open spec fn then_emit(p: Parsed, ops: Code) -> Parsed {
    match p {
        Some((c, r)) => Some((c + ops, r)),
        None => None,
    }
}

/// The prefix form at the front of `ts`: a literal, a unary operator with its
/// operand, or a parenthesised expression.
pub open spec fn prefix(ts: Seq<TokenView>) -> Parsed
    decreases ts.len(), 1int,
{
    if ts.len() == 0 {
        None
    } else {
        let t = ts[0];
        let rest = ts.drop_first();
        let p = binding_power(t.kind);
        match t.kind {
            Kind::Number(d) => Some((constant(ValueView::Number(NumberView::Numeral(d)), t.line), rest)),
            Kind::Str(s) => Some((constant(ValueView::Str(s), t.line), rest)),
            Kind::True => Some((constant(ValueView::Boolean(true), t.line), rest)),
            Kind::False => Some((constant(ValueView::Boolean(false), t.line), rest)),
            Kind::Nil => Some((constant(ValueView::Nil, t.line), rest)),
            Kind::Bang => then_emit(parse_expr(rest, p), seq![(OpView::Not, t.line)]),
            Kind::Plus => parse_expr(rest, p),
            Kind::Minus => then_emit(parse_expr(rest, p), seq![(OpView::Negate, t.line)]),
            Kind::LeftParen => match parse_expr(rest, p) {
                Some((c, r)) => if r.len() > 0 && r[0].kind is RightParen {
                    Some((c, r.drop_first()))
                } else {
                    None
                },
                None => None,
            },
            _ => None,
        }
    }
}

/// An expression whose operators bind more strongly than `prec`: a prefix
/// form, then as many infix operators as bind more strongly than `prec`.
pub open spec fn parse_expr(ts: Seq<TokenView>, prec: int) -> Parsed
    decreases ts.len(), 2int,
{
    match prefix(ts) {
        Some((c, r)) => if r.len() < ts.len() {
            climb(r, prec, c)
        } else {
            None
        },
        None => None,
    }
}

/// Extends `left` with the infix operators at the front of `ts` that bind more
/// strongly than `prec`, each with its right operand.
pub open spec fn climb(ts: Seq<TokenView>, prec: int, left: Code) -> Parsed
    decreases ts.len(), 0int,
{
    if ts.len() > 0 && prec < binding_power(ts[0].kind) {
        let t = ts[0];
        match infix_ops(t.kind, t.line) {
            None => None,
            Some(ops) => match parse_expr(ts.drop_first(), binding_power(t.kind)) {
                Some((right, r)) => if r.len() < ts.len() {
                    climb(r, prec, left + right + ops)
                } else {
                    None
                },
                None => None,
            },
        }
    } else {
        Some((left, ts))
    }
}

pub proof fn lemma_climb_shrinks(ts: Seq<TokenView>, prec: int, left: Code)
    ensures
        climb(ts, prec, left) matches Some((c, r)) ==> r.len() <= ts.len(),
    decreases ts.len(),
{
    if ts.len() > 0 && prec < binding_power(ts[0].kind) {
        let t = ts[0];
        if let Some(ops) = infix_ops(t.kind, t.line) {
            if let Some((right, r)) = parse_expr(ts.drop_first(), binding_power(t.kind)) {
                if r.len() < ts.len() {
                    lemma_climb_shrinks(r, prec, left + right + ops);
                }
            }
        }
    }
}

pub proof fn lemma_parse_shrinks(ts: Seq<TokenView>, prec: int)
    ensures
        parse_expr(ts, prec) matches Some((c, r)) ==> r.len() < ts.len(),
{
    if let Some((c, r)) = prefix(ts) {
        if r.len() < ts.len() {
            lemma_climb_shrinks(r, prec, c);
        }
    }
}

/// Requires a `;` at the front of `ts` and appends `op`, tagged with the line
/// of that `;`.
pub open spec fn terminated(p: Parsed, op: OpView) -> Parsed {
    match p {
        Some((c, r)) => if r.len() > 0 && r[0].kind is Semicolon {
            Some((c.push((op, r[0].line)), r.drop_first()))
        } else {
            None
        },
        None => None,
    }
}

/// A statement: `print expression ;`, which prints the value, or
/// `expression ;`, which discards it.
pub open spec fn parse_statement(ts: Seq<TokenView>) -> Parsed {
    if ts.len() > 0 && ts[0].kind is Print {
        terminated(parse_expr(ts.drop_first(), 0), OpView::Print)
    } else {
        terminated(parse_expr(ts, 0), OpView::Pop)
    }
}

/// A program: statements up to the end of the tokens.
pub open spec fn parse_program(ts: Seq<TokenView>) -> Option<Code>
    decreases ts.len(),
{
    if ts.len() == 0 {
        Some(Seq::empty())
    } else {
        match parse_statement(ts) {
            Some((c, r)) => if r.len() < ts.len() {
                match parse_program(r) {
                    Some(more) => Some(c + more),
                    None => None,
                }
            } else {
                None
            },
            None => None,
        }
    }
}

pub proof fn lemma_statement_shrinks(ts: Seq<TokenView>)
    ensures
        parse_statement(ts) matches Some((c, r)) ==> r.len() < ts.len(),
{
    if ts.len() > 0 && ts[0].kind is Print {
        lemma_parse_shrinks(ts.drop_first(), 0);
    } else {
        lemma_parse_shrinks(ts, 0);
    }
}

/// The instructions that an infix operator appends; `None` for a token that
/// is no infix operator.
fn infix_code(t: &TokenType, line: usize) -> (r: Option<Vec<Instr>>)
    ensures
        match infix_ops(t@, line as int) {
            Some(ops) => r matches Some(v) && code_view(v@) == ops,
            None => r is None,
        },
{
    let v = match t {
        TokenType::Plus => vec![(OpCode::Add, line)],
        TokenType::Minus => vec![(OpCode::Subtract, line)],
        TokenType::Star => vec![(OpCode::Multiply, line)],
        TokenType::Slash => vec![(OpCode::Divide, line)],
        TokenType::Greater => vec![(OpCode::Greater, line)],
        TokenType::Less => vec![(OpCode::Less, line)],
        TokenType::EqualEqual => vec![(OpCode::Equal, line)],
        TokenType::BangEqual => vec![(OpCode::Equal, line), (OpCode::Not, line)],
        TokenType::GreaterEqual => vec![(OpCode::Less, line), (OpCode::Not, line)],
        TokenType::LessEqual => vec![(OpCode::Greater, line), (OpCode::Not, line)],
        _ => return None,
    };
    assert(code_view(v@) =~= infix_ops(t@, line as int)->0);
    Some(v)
}

/// A parser over the tokens of a scanner, with one token of lookahead.
pub struct Parser {
    tokens: Tokenizer,
    peeked: Option<Token>,
}

impl Parser {
    /// The tokens not yet consumed.
    pub closed spec fn rest(&self) -> Seq<TokenView> {
        match self.peeked {
            Some(t) => seq![t@] + self.tokens.remaining(),
            None => self.tokens.remaining(),
        }
    }

    pub closed spec fn wf(&self) -> bool {
        self.tokens.wf()
    }

    pub fn new(tokens: Tokenizer) -> (r: Parser)
        requires
            tokens.wf(),
        ensures
            r.wf(),
            r.rest() == tokens.remaining(),
    {
        Parser { tokens, peeked: None }
    }

    fn fill(&mut self)
        requires
            old(self).wf(),
        ensures
            final(self).wf(),
            final(self).rest() == old(self).rest(),
            final(self).peeked is None ==> final(self).rest().len() == 0,
    {
        if self.peeked.is_none() {
            self.peeked = self.tokens.next();
            proof {
                if self.peeked is Some {
                    assert(self.rest() =~= old(self).rest());
                }
            }
        }
    }

    fn consume(&mut self) -> (r: Option<Token>)
        requires
            old(self).wf(),
        ensures
            final(self).wf(),
            old(self).rest().len() == 0 ==> (r is None && final(self).rest() == old(self).rest()),
            old(self).rest().len() > 0 ==> (r matches Some(t) && t@ == old(self).rest()[0]
                && final(self).rest() == old(self).rest().drop_first()),
    {
        self.fill();
        let r = self.peeked.take();
        proof {
            if r is Some {
                assert(self.rest() =~= old(self).rest().drop_first());
            }
        }
        r
    }

    fn peek_precedence(&mut self) -> (r: i32)
        requires
            old(self).wf(),
        ensures
            final(self).wf(),
            final(self).rest() == old(self).rest(),
            r == (if old(self).rest().len() > 0 { binding_power(old(self).rest()[0].kind) } else { 0 }),
    {
        self.fill();
        match &self.peeked {
            Some(t) => t.precedence(),
            None => 0,
        }
    }

/// Parses an expression whose operators bind more strongly than
    /// `precedence`; `None` on a syntax error.
    pub fn expression(&mut self, precedence: i32) -> (r: Option<Vec<Instr>>)
        requires
            old(self).wf(),
        ensures
            final(self).wf(),
            match parse_expr(old(self).rest(), precedence as int) {
                Some((c, rest)) => r matches Some(v) && code_view(v@) == c && final(self).rest() == rest,
                None => r is None,
            },
        decreases old(self).rest().len(), 1int,
    {
        let ghost ts = self.rest();
        let ghost target = parse_expr(ts, precedence as int);
        let tok = match self.consume() {
            Some(t) => t,
            None => return None,
        };
        let ghost rest1 = self.rest();
        let p = tok.precedence();
        let line = tok.line;
        let left: Vec<Instr> = match tok.token_type {
            TokenType::Number(d) => vec![(OpCode::Constant(Value::Number(Number::Numeral(d))), line)],
            TokenType::Str(s) => vec![(OpCode::Constant(Value::Obj(Obj::String(Rc::new(s)))), line)],
            TokenType::True => vec![(OpCode::Constant(Value::Boolean(true)), line)],
            TokenType::False => vec![(OpCode::Constant(Value::Boolean(false)), line)],
            TokenType::Nil => vec![(OpCode::Constant(Value::Nil), line)],
            TokenType::Bang => match self.expression(p) {
                Some(mut e) => {
                    e.push((OpCode::Not, line));
                    e
                },
                None => return None,
            },
            TokenType::Plus => match self.expression(p) {
                Some(e) => e,
                None => return None,
            },
            TokenType::Minus => match self.expression(p) {
                Some(mut e) => {
                    e.push((OpCode::Negate, line));
                    e
                },
                None => return None,
            },
            TokenType::LeftParen => match self.expression(p) {
                Some(e) => match self.consume() {
                    Some(Token { token_type: TokenType::RightParen, .. }) => e,
                    _ => return None,
                },
                None => return None,
            },
            _ => return None,
        };
        proof {
            lemma_parse_shrinks(rest1, p as int);
            assert(prefix(ts) == Some((code_view(left@), self.rest())));
        }
        let mut left = left;
        loop
            invariant
                self.wf(),
                climb(self.rest(), precedence as int, code_view(left@)) == target,
                target == parse_expr(old(self).rest(), precedence as int),
                self.rest().len() < old(self).rest().len(),
            decreases self.rest().len(),
        {
            let next_precedence = self.peek_precedence();
            if next_precedence <= precedence {
                return Some(left);
            }
            let op = match self.consume() {
                Some(t) => t,
                None => return Some(left),
            };
            let mut ops = match infix_code(&op.token_type, op.line) {
                Some(o) => o,
                None => return None,
            };
            let ghost rest2 = self.rest();
            let mut right = match self.expression(op.precedence()) {
                Some(e) => e,
                None => return None,
            };
            proof {
                lemma_parse_shrinks(rest2, binding_power(op.token_type@));
            }
            let ghost before = code_view(left@);
            let ghost right_code = code_view(right@);
            let ghost ops_code = code_view(ops@);
            left.append(&mut right);
            left.append(&mut ops);
            assert(code_view(left@) =~= before + right_code + ops_code);
        }
    }

/// Requires a `;` next and appends `op`, tagged with its line.
    fn terminate(&mut self, code: Vec<Instr>, op: OpCode) -> (r: Option<Vec<Instr>>)
        requires
            old(self).wf(),
        ensures
            final(self).wf(),
            match terminated(Some((code_view(code@), old(self).rest())), op@) {
                Some((c, rest)) => r matches Some(v) && code_view(v@) == c && final(self).rest() == rest,
                None => r is None,
            },
    {
        let mut code = code;
        match self.consume() {
            Some(Token { token_type: TokenType::Semicolon, line }) => {
                let ghost before = code_view(code@);
                code.push((op, line));
                assert(code_view(code@) =~= before.push((op@, line as int)));
                Some(code)
            },
            _ => None,
        }
    }

    /// `print expression ;`
    fn print_statement(&mut self) -> (r: Option<Vec<Instr>>)
        requires
            old(self).wf(),
            old(self).rest().len() > 0,
            old(self).rest()[0].kind is Print,
        ensures
            final(self).wf(),
            match parse_statement(old(self).rest()) {
                Some((c, rest)) => r matches Some(v) && code_view(v@) == c && final(self).rest() == rest,
                None => r is None,
            },
    {
        let _ = self.consume();
        match self.expression(0) {
            Some(code) => self.terminate(code, OpCode::Print),
            None => None,
        }
    }

    /// `expression ;`
    fn expression_statement(&mut self) -> (r: Option<Vec<Instr>>)
        requires
            old(self).wf(),
        ensures
            final(self).wf(),
            match terminated(parse_expr(old(self).rest(), 0), OpView::Pop) {
                Some((c, rest)) => r matches Some(v) && code_view(v@) == c && final(self).rest() == rest,
                None => r is None,
            },
    {
        match self.expression(0) {
            Some(code) => self.terminate(code, OpCode::Pop),
            None => None,
        }
    }

    fn statement(&mut self) -> (r: Option<Vec<Instr>>)
        requires
            old(self).wf(),
        ensures
            final(self).wf(),
            match parse_statement(old(self).rest()) {
                Some((c, rest)) => r matches Some(v) && code_view(v@) == c && final(self).rest() == rest,
                None => r is None,
            },
    {
        self.fill();
        let is_print = match &self.peeked {
            Some(Token { token_type: TokenType::Print, .. }) => true,
            _ => false,
        };
        if is_print {
            self.print_statement()
        } else {
            self.expression_statement()
        }
    }

    /// Parses statements up to the end of the input; `None` on the first
    /// syntax error.
    pub fn parse(&mut self) -> (r: Option<Vec<Instr>>)
        requires
            old(self).wf(),
        ensures
            match parse_program(old(self).rest()) {
                Some(c) => r matches Some(v) && code_view(v@) == c,
                None => r is None,
            },
    {
        let ghost target = parse_program(self.rest());
        let mut result: Vec<Instr> = Vec::new();
        while self.not_eof()
            invariant
                self.wf(),
                target == parse_program(old(self).rest()),
                target == match parse_program(self.rest()) {
                    Some(more) => Some(code_view(result@) + more),
                    None => None,
                },
            decreases self.rest().len(),
        {
            let ghost ts = self.rest();
            let mut code = match self.statement() {
                Some(c) => c,
                None => return None,
            };
            proof {
                lemma_statement_shrinks(ts);
            }
            let ghost before = code_view(result@);
            let ghost added = code_view(code@);
            result.append(&mut code);
            proof {
                assert(code_view(result@) =~= before + added);
                if let Some(more) = parse_program(self.rest()) {
                    assert(before + (added + more) =~= code_view(result@) + more);
                }
            }
        }
        proof {
            assert(code_view(result@) + Seq::empty() =~= code_view(result@));
        }
        Some(result)
    }

    fn not_eof(&mut self) -> (r: bool)
        requires
            old(self).wf(),
        ensures
            final(self).wf(),
            final(self).rest() == old(self).rest(),
            r == (old(self).rest().len() > 0),
    {
        self.fill();
        self.peeked.is_some()
    }
}

} // verus!
