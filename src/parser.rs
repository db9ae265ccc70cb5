use vstd::prelude::*;

use crate::error::{Error, Fault};
use crate::lexer::{Token, TokenView, tokens_view};

verus! {

/// The two operators of an offset expression.
#[derive(PartialEq, Eq, Structural, Clone, Copy, Debug)]
pub enum BinaryOp {
    Add,
    Sub,
}

/// A parsed expression or statement of a script line.
pub enum Expr {
    Statement { offset: Box<Expr>, variable: String, func: Box<Expr> },
    Binary { op: BinaryOp, left: Box<Expr>, right: Box<Expr> },
    Call { callee: String, args: Vec<Expr> },
    Variable(String),
    Const(String),
    Str(String),
    Literal(usize),
}

/// An expression with its texts as character sequences. Of a call and of a
/// statement it keeps the names; their parts are read through the `Expr`.
pub enum ExprView {
    Statement { variable: Seq<char> },
    Binary { op: BinaryOp, left: Box<ExprView>, right: Box<ExprView> },
    Call { callee: Seq<char> },
    Variable(Seq<char>),
    Const(Seq<char>),
    Str(Seq<char>),
    Literal(usize),
}

pub open spec fn expr_model(e: Expr) -> ExprView
    decreases e,
{
    match e {
        Expr::Statement { variable, .. } => ExprView::Statement { variable: variable@ },
        Expr::Binary { op, left, right } => ExprView::Binary {
            op,
            left: Box::new(expr_model(*left)),
            right: Box::new(expr_model(*right)),
        },
        Expr::Call { callee, .. } => ExprView::Call { callee: callee@ },
        Expr::Variable(q) => ExprView::Variable(q@),
        Expr::Const(n) => ExprView::Const(n@),
        Expr::Str(s) => ExprView::Str(s@),
        Expr::Literal(v) => ExprView::Literal(v),
    }
}

impl View for Expr {
    type V = ExprView;

    open spec fn view(&self) -> ExprView {
        expr_model(*self)
    }
}

/// A parsed statement: offset, destination name, function name and arguments.
pub struct StatementView {
    pub offset: ExprView,
    pub destination: Seq<char>,
    pub callee: Seq<char>,
    pub args: Seq<ExprView>,
}

/// The views of a sequence of expressions.
pub open spec fn exprs_view(es: Seq<Expr>) -> Seq<ExprView> {
    es.map_values(|e: Expr| e@)
}

/// The statement that an `Expr` holds, if it has the shape of one.
pub open spec fn statement_of(e: Expr) -> Option<StatementView> {
    match e {
        Expr::Statement { offset, variable, func } => match *func {
            Expr::Call { callee, args } => Some(
                StatementView {
                    offset: (*offset)@,
                    destination: variable@,
                    callee: callee@,
                    args: exprs_view(args@),
                },
            ),
            _ => None,
        },
        _ => None,
    }
}

pub open spec fn token_at(ts: Seq<TokenView>, i: int) -> Option<TokenView> {
    if 0 <= i < ts.len() {
        Some(ts[i])
    } else {
        None
    }
}

/// `$a.b` from the index after the `$`.
pub open spec fn parse_variable(ts: Seq<TokenView>, i: int) -> Result<(ExprView, int), Fault> {
    if !(token_at(ts, i) matches Some(TokenView::Ident(_))) {
        Err(Fault::ExpectedIdentifier)
    } else if token_at(ts, i + 1) != Some(TokenView::Dot) {
        Err(Fault::ExpectedDot)
    } else if !(token_at(ts, i + 2) matches Some(TokenView::Ident(_))) {
        Err(Fault::ExpectedIdentifier)
    } else {
        let a = ts[i]->Ident_0;
        let b = ts[i + 2]->Ident_0;
        Ok((ExprView::Variable(a + seq!['.'] + b), i + 3))
    }
}

/// A number, a string, a constant's name or a variable reference.
pub open spec fn parse_primary(ts: Seq<TokenView>, i: int) -> Result<(ExprView, int), Fault> {
    match token_at(ts, i) {
        Some(TokenView::Num(v)) => Ok((ExprView::Literal(v), i + 1)),
        Some(TokenView::Str(s)) => Ok((ExprView::Str(s), i + 1)),
        Some(TokenView::Ident(n)) => Ok((ExprView::Const(n), i + 1)),
        Some(TokenView::Dollar) => parse_variable(ts, i + 1),
        _ => Err(Fault::UnexpectedPrimary),
    }
}

/// `primary ( ('+' | '-') expr )?`: the right operand is a whole expression,
/// so `a - b - c` is `a - (b - c)`.
pub open spec fn parse_expr(ts: Seq<TokenView>, i: int) -> Result<(ExprView, int), Fault>
    decreases ts.len() - i via parse_expr_decreases
{
    match parse_primary(ts, i) {
        Err(f) => Err(f),
        Ok((l, j)) => {
            let op = if token_at(ts, j) == Some(TokenView::Add) {
                Some(BinaryOp::Add)
            } else if token_at(ts, j) == Some(TokenView::Sub) {
                Some(BinaryOp::Sub)
            } else {
                None
            };
            match op {
                None => Ok((l, j)),
                Some(op) => match parse_expr(ts, j + 1) {
                    Ok((r, k)) => Ok(
                        (ExprView::Binary { op, left: Box::new(l), right: Box::new(r) }, k),
                    ),
                    Err(f) => Err(f),
                },
            }
        },
    }
}

#[via_fn]
proof fn parse_expr_decreases(ts: Seq<TokenView>, i: int) {
    lemma_primary_advances(ts, i);
}

pub proof fn lemma_primary_advances(ts: Seq<TokenView>, i: int)
    ensures
        parse_primary(ts, i) matches Ok((e, j)) ==> 0 <= i < j <= ts.len(),
{
}

pub proof fn lemma_expr_advances(ts: Seq<TokenView>, i: int)
    ensures
        parse_expr(ts, i) matches Ok((e, j)) ==> 0 <= i < j <= ts.len(),
    decreases ts.len() - i,
{
    lemma_primary_advances(ts, i);
    if let Ok((l, j)) = parse_primary(ts, i) {
        if j < ts.len() {
            lemma_expr_advances(ts, j + 1);
        }
    }
}

/// The arguments `( ',' expr )*` from index `i`, and the index after them.
pub open spec fn parse_args(ts: Seq<TokenView>, i: int) -> Result<(Seq<ExprView>, int), Fault>
    decreases ts.len() - i via parse_args_decreases
{
    if i < 0 || i >= ts.len() {
        Err(Fault::UnexpectedEndOfInput)
    } else if ts[i] != TokenView::Comma {
        Ok((Seq::empty(), i))
    } else {
        match parse_expr(ts, i + 1) {
            Err(f) => Err(f),
            Ok((e, j)) => match parse_args(ts, j) {
                Err(f) => Err(f),
                Ok((rest, k)) => Ok((seq![e] + rest, k)),
            },
        }
    }
}

#[via_fn]
proof fn parse_args_decreases(ts: Seq<TokenView>, i: int) {
    lemma_expr_advances(ts, i + 1);
}

/// `expr ':' IDENT ':' IDENT ( ',' expr )* EOL` from index `i`.
pub open spec fn parse_statement(ts: Seq<TokenView>, i: int) -> Result<StatementView, Fault> {
    match parse_expr(ts, i) {
        Err(f) => Err(f),
        Ok((offset, a)) => if token_at(ts, a) != Some(TokenView::Semicolon) {
            Err(Fault::ExpectedSeparator)
        } else if !(token_at(ts, a + 1) matches Some(TokenView::Ident(_))) {
            Err(Fault::ExpectedIdentifier)
        } else if token_at(ts, a + 2) != Some(TokenView::Semicolon) {
            Err(Fault::ExpectedSeparator)
        } else if !(token_at(ts, a + 3) matches Some(TokenView::Ident(_))) {
            Err(Fault::ExpectedIdentifier)
        } else {
            match parse_args(ts, a + 4) {
                Err(f) => Err(f),
                Ok((args, b)) => if token_at(ts, b) != Some(TokenView::Eol) {
                    Err(Fault::ExpectedEndOfLine)
                } else {
                    Ok(
                        StatementView {
                            offset,
                            destination: ts[a + 1]->Ident_0,
                            callee: ts[a + 3]->Ident_0,
                            args,
                        },
                    )
                },
            }
        },
    }
}

/// What a line's tokens from index `i` give: nothing for a blank line, else
/// a statement or the first syntax error.
pub open spec fn parse_line(ts: Seq<TokenView>, i: int) -> Option<Result<StatementView, Fault>> {
    match token_at(ts, i) {
        Some(TokenView::Eol) => None,
        Some(_) => Some(parse_statement(ts, i)),
        None => Some(Err(Fault::UnexpectedEndOfInput)),
    }
}

/// Reads the tokens of one line into a statement.
pub struct Parser<'a> {
    tokens: &'a [Token],
    current: usize,
}

impl<'a> Parser<'a> {
    /// The views of the tokens.
    pub closed spec fn tokens(&self) -> Seq<TokenView> {
        tokens_view(self.tokens@)
    }

    /// The index of the next token to read.
    pub closed spec fn position(&self) -> int {
        self.current as int
    }

    pub closed spec fn wf(&self) -> bool {
        &&& self.current <= self.tokens@.len()
        &&& self.tokens@.len() <= usize::MAX
    }

    pub fn new(tokens: &'a [Token]) -> (r: Self)
        ensures
            r.wf(),
            r.tokens() == tokens_view(tokens@),
            r.position() == 0,
    {
        proof {
            vstd::slice::axiom_spec_len(tokens);
        }
        Parser { tokens: tokens, current: 0 }
    }

    fn peek(&self) -> (r: Option<&Token>)
        requires
            self.wf(),
        ensures
            match r {
                Some(t) => self.current < self.tokens@.len() && *t == self.tokens@[self.current as int],
                None => self.current >= self.tokens@.len(),
            },
    {
        if self.current < self.tokens.len() {
            let token = &self.tokens[self.current];
            Some(token)
        } else {
            None
        }
    }

    fn cons_semicolon(&mut self) -> (r: Result<(), Error>)
        requires
            old(self).wf(),
        ensures
            final(self).wf(),
            final(self).tokens == old(self).tokens,
            token_at(old(self).tokens(), old(self).position()) == Some(TokenView::Semicolon) ==> (r
                is Ok && final(self).current == old(self).current + 1),
            token_at(old(self).tokens(), old(self).position()) != Some(TokenView::Semicolon) ==> (r
                matches Err(e) && e@ == Fault::ExpectedSeparator),
    {
        match self.peek() {
            Some(Token::Semicolon) => {
                self.current = self.current + 1;
                Ok(())
            },
            _ => Err(Error::ExpectedSeparator),
        }
    }

    fn cons_ident(&mut self) -> (r: Result<String, Error>)
        requires
            old(self).wf(),
        ensures
            final(self).wf(),
            final(self).tokens == old(self).tokens,
            match token_at(old(self).tokens(), old(self).position()) {
                Some(TokenView::Ident(n)) => r matches Ok(s) && s@ == n && final(self).current
                    == old(self).current + 1,
                _ => r matches Err(e) && e@ == Fault::ExpectedIdentifier,
            },
    {
        let name = match self.peek() {
            Some(Token::Ident(name)) => name.clone(),
            _ => {
                return Err(Error::ExpectedIdentifier);
            },
        };
        self.current = self.current + 1;
        Ok(name)
    }

    /// The next argument, if a comma comes next.
    fn cons_arg(&mut self) -> (r: Option<Result<Expr, Error>>)
        requires
            old(self).wf(),
        ensures
            final(self).wf(),
            final(self).tokens == old(self).tokens,
            ({
                let ts = old(self).tokens();
                let i = old(self).position();
                if i >= ts.len() {
                    r matches Some(Err(e)) && e@ == Fault::UnexpectedEndOfInput
                } else if ts[i] != TokenView::Comma {
                    r is None && final(self).current == old(self).current
                } else {
                    match parse_expr(ts, i + 1) {
                        Ok((v, j)) => r matches Some(Ok(e)) && e@ == v && final(self).position() == j,
                        Err(f) => r matches Some(Err(e)) && e@ == f,
                    }
                }
            }),
    {
        match self.peek() {
            Some(Token::Comma) => {
                self.current = self.current + 1;
            },
            None => {
                return Some(Err(Error::UnexpectedEndOfInput));
            },
            _ => {
                return None;
            },
        };
        Some(self.expr())
    }

    /// The statement of the line, or `None` for a blank line.
    pub fn parse(&mut self) -> (r: Option<Result<Expr, Error>>)
        requires
            old(self).wf(),
        ensures
            final(self).wf(),
            match parse_line(old(self).tokens(), old(self).position()) {
                None => r is None,
                Some(Ok(sv)) => r matches Some(Ok(e)) && statement_of(e) == Some(sv),
                Some(Err(f)) => r matches Some(Err(e)) && e@ == f,
            },
    {
        match self.peek() {
            Some(Token::Eol) => None,
            Some(_) => Some(self.statement()),
            None => Some(Err(Error::UnexpectedEndOfInput)),
        }
    }

    fn statement(&mut self) -> (r: Result<Expr, Error>)
        requires
            old(self).wf(),
        ensures
            final(self).wf(),
            match parse_statement(old(self).tokens(), old(self).position()) {
                Ok(sv) => r matches Ok(e) && statement_of(e) == Some(sv),
                Err(f) => r matches Err(e) && e@ == f,
            },
    {
        let ghost ts = self.tokens();
        let ghost i0 = self.position();
        let offset = self.expr()?;
        let ghost a = self.position();
        self.cons_semicolon()?;
        let var_name = self.cons_ident()?;
        self.cons_semicolon()?;
        let func_name = self.cons_ident()?;
        let ghost start = self.position();
        let mut func_args: Vec<Expr> = Vec::new();
        loop
            invariant
                self.wf(),
                self.tokens() == ts,
                start == a + 4,
                0 <= self.position(),
                i0 == old(self).position(),
                ts == old(self).tokens(),
                parse_expr(ts, i0) == Ok::<(ExprView, int), Fault>((offset@, a)),
                token_at(ts, a) == Some(TokenView::Semicolon),
                token_at(ts, a + 1) == Some(TokenView::Ident(var_name@)),
                token_at(ts, a + 2) == Some(TokenView::Semicolon),
                token_at(ts, a + 3) == Some(TokenView::Ident(func_name@)),
                match parse_args(ts, start) {
                    Ok((all, b)) => match parse_args(ts, self.position()) {
                        Ok((rest, b2)) => b2 == b && all == exprs_view(func_args@) + rest,
                        Err(_) => false,
                    },
                    Err(f) => parse_args(ts, self.position()) == Err::<(Seq<ExprView>, int), Fault>(f),
                },
            ensures
                parse_args(ts, self.position()) == Ok::<(Seq<ExprView>, int), Fault>(
                    (Seq::empty(), self.position()),
                ),
            decreases ts.len() - self.position(),
        {
            let ghost i = self.position();
            proof {
                lemma_expr_advances(ts, i + 1);
            }
            match self.cons_arg() {
                Some(Ok(arg)) => {
                    let ghost before = func_args@;
                    let ghost v = arg@;
                    func_args.push(arg);
                    proof {
                        assert(exprs_view(func_args@) =~= exprs_view(before) + seq![v]);
                        match parse_args(ts, self.position()) {
                            Ok((rest, b2)) => {
                                assert(exprs_view(func_args@) + rest =~= exprs_view(before) + (
                                seq![v] + rest));
                            },
                            Err(_) => {},
                        }
                    }
                },
                Some(Err(e)) => {
                    return Err(e);
                },
                None => {
                    break;
                },
            }
        }
        proof {
            assert(exprs_view(func_args@) + Seq::<ExprView>::empty() =~= exprs_view(func_args@));
            assert(parse_args(ts, start) == Ok::<(Seq<ExprView>, int), Fault>(
                (exprs_view(func_args@), self.position()),
            ));
        }
        let func = Expr::Call { callee: func_name, args: func_args };
        match self.peek() {
            Some(Token::Eol) => {
                self.current = self.current + 1;
            },
            _ => {
                proof {
                    if self.current < self.tokens@.len() {
                        assert(ts[self.position()] == self.tokens@[self.position()]@);
                    }
                }
                return Err(Error::ExpectedEndOfLine);
            },
        };
        Ok(Expr::Statement { offset: Box::new(offset), variable: var_name, func: Box::new(func) })
    }

    fn expr(&mut self) -> (r: Result<Expr, Error>)
        requires
            old(self).wf(),
        ensures
            final(self).wf(),
            final(self).tokens == old(self).tokens,
            match parse_expr(old(self).tokens(), old(self).position()) {
                Ok((v, j)) => r matches Ok(e) && e@ == v && final(self).position() == j,
                Err(f) => r matches Err(e) && e@ == f,
            },
        decreases old(self).tokens@.len() - old(self).current,
    {
        proof {
            lemma_primary_advances(self.tokens(), self.position());
        }
        let expr = self.primary()?;
        let op = match self.peek() {
            Some(Token::Add) => BinaryOp::Add,
            Some(Token::Sub) => BinaryOp::Sub,
            _ => {
                return Ok(expr);
            },
        };
        self.current = self.current + 1;
        let right = self.expr()?;
        Ok(Expr::Binary { op, left: Box::new(expr), right: Box::new(right) })
    }

    fn primary(&mut self) -> (r: Result<Expr, Error>)
        requires
            old(self).wf(),
        ensures
            final(self).wf(),
            final(self).tokens == old(self).tokens,
            match parse_primary(old(self).tokens(), old(self).position()) {
                Ok((v, j)) => r matches Ok(e) && e@ == v && final(self).position() == j,
                Err(f) => r matches Err(e) && e@ == f,
            },
    {
        let val = match self.peek() {
            Some(Token::Num(value)) => Expr::Literal(*value),
            Some(Token::Str(value)) => Expr::Str(value.clone()),
            Some(Token::Ident(name)) => Expr::Const(name.clone()),
            Some(Token::Dollar) => {
                return self.variable();
            },
            _ => {
                return Err(Error::UnexpectedPrimary);
            },
        };
        self.current = self.current + 1;
        Ok(val)
    }

    fn variable(&mut self) -> (r: Result<Expr, Error>)
        requires
            old(self).wf(),
            old(self).current < old(self).tokens@.len(),
        ensures
            final(self).wf(),
            final(self).tokens == old(self).tokens,
            match parse_variable(old(self).tokens(), old(self).position() + 1) {
                Ok((v, j)) => r matches Ok(e) && e@ == v && final(self).position() == j,
                Err(f) => r matches Err(e) && e@ == f,
            },
    {
        let ghost ts = self.tokens();
        let ghost i = self.position() + 1;
        proof {
            if 0 <= i < ts.len() {
                assert(ts[i] == self.tokens@[i]@);
            }
            if 0 <= i + 2 < ts.len() {
                assert(ts[i + 2] == self.tokens@[i + 2]@);
            }
        }
        self.current = self.current + 1;
        let mut var_name = match self.peek() {
            Some(Token::Ident(name)) => name.clone(),
            _ => {
                return Err(Error::ExpectedIdentifier);
            },
        };
        self.current = self.current + 1;
        match self.peek() {
            Some(Token::Dot) => {
                var_name.append(".");
                self.current = self.current + 1;
            },
            _ => {
                return Err(Error::ExpectedDot);
            },
        }
        match self.peek() {
            Some(Token::Ident(name)) => {
                var_name.append(name.as_str());
                self.current = self.current + 1;
            },
            _ => {
                return Err(Error::ExpectedIdentifier);
            },
        }
        proof {
            reveal_strlit(".");
            assert(var_name@ =~= ts[i]->Ident_0 + seq!['.'] + ts[i + 2]->Ident_0);
        }
        Ok(Expr::Variable(var_name))
    }
}

} // verus!
