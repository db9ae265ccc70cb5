use vstd::prelude::*;

use crate::error::{Error, Fault};

verus! {

/// One token of a script line.
pub enum Token {
    Add,
    Sub,
    Comma,
    Semicolon,
    Dollar,
    Dot,
    Ident(String),
    Str(String),
    Num(usize),
    Eol,
}

/// A token with its text as a character sequence.
pub enum TokenView {
    Add,
    Sub,
    Comma,
    Semicolon,
    Dollar,
    Dot,
    Ident(Seq<char>),
    Str(Seq<char>),
    Num(usize),
    Eol,
}

impl View for Token {
    type V = TokenView;

    open spec fn view(&self) -> TokenView {
        match self {
            Token::Add => TokenView::Add,
            Token::Sub => TokenView::Sub,
            Token::Comma => TokenView::Comma,
            Token::Semicolon => TokenView::Semicolon,
            Token::Dollar => TokenView::Dollar,
            Token::Dot => TokenView::Dot,
            Token::Ident(s) => TokenView::Ident(s@),
            Token::Str(s) => TokenView::Str(s@),
            Token::Num(n) => TokenView::Num(*n),
            Token::Eol => TokenView::Eol,
        }
    }
}

pub open spec fn tokens_view(ts: Seq<Token>) -> Seq<TokenView> {
    ts.map_values(|t: Token| t@)
}

/// A token or error of the lexer says what the model says.
pub open spec fn token_agrees(r: Result<Token, Error>, m: Result<TokenView, Fault>) -> bool {
    match (r, m) {
        (Ok(a), Ok(b)) => a@ == b,
        (Err(e), Err(f)) => e@ == f,
        _ => false,
    }
}

pub open spec fn is_digit(c: char) -> bool {
    '0' <= c && c <= '9'
}

pub open spec fn is_hex_digit(c: char) -> bool {
    is_digit(c) || ('a' <= c && c <= 'f') || ('A' <= c && c <= 'F')
}

pub open spec fn is_alpha(c: char) -> bool {
    ('a' <= c && c <= 'z') || ('A' <= c && c <= 'Z') || c == '_'
}

pub open spec fn is_alpha_numeric(c: char) -> bool {
    is_alpha(c) || is_digit(c)
}

/// The classes of characters that a token runs over.
#[derive(Clone, Copy)]
pub enum CharClass {
    Digit,
    HexDigit,
    AlphaNumeric,
    NotQuote,
}

pub open spec fn in_class(k: CharClass, c: char) -> bool {
    match k {
        CharClass::Digit => is_digit(c),
        CharClass::HexDigit => is_hex_digit(c),
        CharClass::AlphaNumeric => is_alpha_numeric(c),
        CharClass::NotQuote => c != '"',
    }
}

/// The first index at or after `i` whose character is not of class `k`
/// (the length of `s` if there is none).
pub open spec fn run_end(s: Seq<char>, i: int, k: CharClass) -> int
    decreases s.len() - i,
{
    if 0 <= i < s.len() && in_class(k, s[i]) {
        run_end(s, i + 1, k)
    } else {
        i
    }
}

/// The value of a digit character in base 16 (and so in base 10).
pub open spec fn digit_value(c: char) -> nat {
    if is_digit(c) {
        (c as u32 - '0' as u32) as nat
    } else if 'a' <= c && c <= 'f' {
        (c as u32 - 'a' as u32 + 10) as nat
    } else {
        (c as u32 - 'A' as u32 + 10) as nat
    }
}

/// The value of a sequence of digits in base `radix`, most significant first.
pub open spec fn numeral_value(s: Seq<char>, radix: nat) -> nat
    decreases s.len(),
{
    if s.len() == 0 {
        0
    } else {
        numeral_value(s.drop_last(), radix) * radix + digit_value(s.last())
    }
}

/// An integer token from its digits, or the error when there are none or the
/// value does not fit in `usize`.
pub open spec fn numeral_token(digits: Seq<char>, radix: nat) -> Result<TokenView, Fault> {
    if digits.len() == 0 || numeral_value(digits, radix) > usize::MAX {
        Err(Fault::InvalidInteger)
    } else {
        Ok(TokenView::Num(numeral_value(digits, radix) as usize))
    }
}

/// The token that starts at or after index `i` of a line (after blanks), with
/// the index that follows it.
pub open spec fn scan_token(s: Seq<char>, i: int) -> Result<(TokenView, int), Fault>
    decreases s.len() - i,
{
    if i < 0 || i >= s.len() {
        Ok((TokenView::Eol, s.len() as int))
    } else {
        let c = s[i];
        if c == ' ' || c == '\t' {
            scan_token(s, i + 1)
        } else if c == '+' {
            Ok((TokenView::Add, i + 1))
        } else if c == '-' {
            Ok((TokenView::Sub, i + 1))
        } else if c == ':' {
            Ok((TokenView::Semicolon, i + 1))
        } else if c == ',' {
            Ok((TokenView::Comma, i + 1))
        } else if c == '$' {
            Ok((TokenView::Dollar, i + 1))
        } else if c == '.' {
            Ok((TokenView::Dot, i + 1))
        } else if c == '"' {
            let j = run_end(s, i + 1, CharClass::NotQuote);
            if j >= s.len() {
                Err(Fault::UnterminatedString)
            } else {
                Ok((TokenView::Str(s.subrange(i + 1, j)), j + 1))
            }
        } else if c == '#' {
            Ok((TokenView::Eol, s.len() as int))
        } else if c == '0' && i + 1 < s.len() && s[i + 1] == 'x' {
            let j = run_end(s, i + 2, CharClass::HexDigit);
            match numeral_token(s.subrange(i + 2, j), 16) {
                Ok(t) => Ok((t, j)),
                Err(f) => Err(f),
            }
        } else if is_digit(c) {
            let j = run_end(s, i + 1, CharClass::Digit);
            match numeral_token(s.subrange(i, j), 10) {
                Ok(t) => Ok((t, j)),
                Err(f) => Err(f),
            }
        } else if is_alpha(c) {
            let j = run_end(s, i + 1, CharClass::AlphaNumeric);
            Ok((TokenView::Ident(s.subrange(i, j)), j))
        } else {
            Err(Fault::UnknownCharacter(c))
        }
    }
}

/// The tokens of a line from index `i` on, up to and including the
/// end-of-line token, or the first lexical error.
pub open spec fn lex_from(s: Seq<char>, i: int) -> Result<Seq<TokenView>, Fault>
    decreases s.len() - i via lex_from_decreases
{
    match scan_token(s, i) {
        Err(f) => Err(f),
        Ok((t, j)) => if t is Eol {
            Ok(seq![t])
        } else {
            match lex_from(s, j) {
                Ok(rest) => Ok(seq![t] + rest),
                Err(f) => Err(f),
            }
        },
    }
}

#[via_fn]
proof fn lex_from_decreases(s: Seq<char>, i: int) {
    lemma_scan_advances(s, i);
}

/// The tokens of a whole line.
pub open spec fn lex(s: Seq<char>) -> Result<Seq<TokenView>, Fault> {
    lex_from(s, 0)
}

pub proof fn lemma_run_end(s: Seq<char>, i: int, k: CharClass)
    requires
        0 <= i <= s.len(),
    ensures
        i <= run_end(s, i, k) <= s.len(),
        forall|m: int| i <= m < run_end(s, i, k) ==> in_class(k, #[trigger] s[m]),
        run_end(s, i, k) < s.len() ==> !in_class(k, s[run_end(s, i, k)]),
    decreases s.len() - i,
{
    if i < s.len() && in_class(k, s[i]) {
        lemma_run_end(s, i + 1, k);
    }
}

/// A token other than the end of the line moves forward, and never past the end.
pub proof fn lemma_scan_advances(s: Seq<char>, i: int)
    ensures
        scan_token(s, i) matches Ok((t, j)) ==> (t is Eol && j == s.len()) || (!(t is Eol) && i
            < j <= s.len() && 0 <= i),
    decreases s.len() - i,
{
    if 0 <= i < s.len() {
        let c = s[i];
        if c == ' ' || c == '\t' {
            lemma_scan_advances(s, i + 1);
        } else if c == '"' {
            lemma_run_end(s, i + 1, CharClass::NotQuote);
        } else if c == '0' && i + 1 < s.len() && s[i + 1] == 'x' {
            lemma_run_end(s, i + 2, CharClass::HexDigit);
        } else if is_digit(c) {
            lemma_run_end(s, i + 1, CharClass::Digit);
        } else if is_alpha(c) {
            lemma_run_end(s, i + 1, CharClass::AlphaNumeric);
        }
    }
}

/// A prefix of a numeral is worth no more than the numeral.
pub proof fn lemma_numeral_prefix(s: Seq<char>, k: int, radix: nat)
    requires
        0 <= k <= s.len(),
        radix >= 1,
    ensures
        numeral_value(s.subrange(0, k), radix) <= numeral_value(s, radix),
    decreases s.len(),
{
    if k < s.len() {
        let d = s.drop_last();
        assert(d.subrange(0, k) =~= s.subrange(0, k));
        lemma_numeral_prefix(d, k, radix);
        let v = numeral_value(d, radix);
        assert(v * radix >= v) by (nonlinear_arith)
            requires
                radix >= 1,
        ;
    } else {
        assert(s.subrange(0, k) =~= s);
    }
}

/// Reads one line of a script into tokens.
pub struct Lexer<'a> {
    line: &'a str,
    len: usize,
    start: usize,
    current: usize,
    eol: bool,
}

impl<'a> Lexer<'a> {
    /// The characters of the line.
    pub closed spec fn text(&self) -> Seq<char> {
        self.line@
    }

    /// The index of the next character to read.
    pub closed spec fn position(&self) -> int {
        self.current as int
    }

    /// Whether the end-of-line token has been handed out.
    pub closed spec fn finished(&self) -> bool {
        self.eol
    }

    pub closed spec fn wf(&self) -> bool {
        &&& self.len as int == self.line@.len()
        &&& self.start <= self.current <= self.len
    }

    pub fn new(input: &'a str) -> (r: Self)
        ensures
            r.wf(),
            r.text() == input@,
            r.position() == 0,
            !r.finished(),
    {
        let len = input.unicode_len();
        Lexer { line: input, len, start: 0, current: 0, eol: false }
    }

    fn is_eol(&self) -> (r: bool)
        ensures
            r == self.finished(),
    {
        self.eol
    }

    fn advance(&mut self) -> (r: Option<char>)
        requires
            old(self).wf(),
        ensures
            final(self).wf(),
            final(self).line == old(self).line,
            final(self).start == old(self).start,
            old(self).current < old(self).len ==> r == Some(old(self).line@[old(self).current as int])
                && final(self).current == old(self).current + 1 && final(self).eol == old(self).eol,
            old(self).current >= old(self).len ==> r is None && final(self).current == old(
                self,
            ).current && final(self).eol,
    {
        if self.current < self.len {
            let c = self.line.get_char(self.current);
            self.current = self.current + 1;
            Some(c)
        } else {
            self.eol = true;
            None
        }
    }

    fn move_curr(&mut self)
        requires
            old(self).wf(),
            old(self).current < old(self).len,
        ensures
            final(self).wf(),
            final(self).line == old(self).line,
            final(self).start == old(self).start,
            final(self).eol == old(self).eol,
            final(self).current == old(self).current + 1,
    {
        self.current = self.current + 1;
    }

    fn peek(&self) -> (r: Option<char>)
        requires
            self.wf(),
        ensures
            self.current < self.len ==> r == Some(self.line@[self.current as int]),
            self.current >= self.len ==> r is None,
    {
        if self.current < self.len {
            Some(self.line.get_char(self.current))
        } else {
            None
        }
    }

    fn is_digit(&self, c: char) -> (r: bool)
        ensures
            r == is_digit(c),
    {
        c >= '0' && c <= '9'
    }

    fn is_hex_digit(&self, c: char) -> (r: bool)
        ensures
            r == is_hex_digit(c),
    {
        self.is_digit(c) || (c >= 'a' && c <= 'f') || (c >= 'A' && c <= 'F')
    }

    fn is_alpha(&self, c: char) -> (r: bool)
        ensures
            r == is_alpha(c),
    {
        (c >= 'a' && c <= 'z') || (c >= 'A' && c <= 'Z') || c == '_'
    }

    fn is_alpha_numeric(&self, c: char) -> (r: bool)
        ensures
            r == is_alpha_numeric(c),
    {
        self.is_alpha(c) || self.is_digit(c)
    }

    fn in_class(&self, k: CharClass, c: char) -> (r: bool)
        ensures
            r == in_class(k, c),
    {
        match k {
            CharClass::Digit => self.is_digit(c),
            CharClass::HexDigit => self.is_hex_digit(c),
            CharClass::AlphaNumeric => self.is_alpha_numeric(c),
            CharClass::NotQuote => c != '"',
        }
    }

    /// Moves over the characters of class `k`.
    fn skip_class(&mut self, k: CharClass)
        requires
            old(self).wf(),
        ensures
            final(self).wf(),
            final(self).line == old(self).line,
            final(self).start == old(self).start,
            final(self).eol == old(self).eol,
            final(self).current == run_end(old(self).line@, old(self).current as int, k),
    {
        let ghost s = self.line@;
        let ghost target = run_end(s, self.current as int, k);
        loop
            invariant
                self.wf(),
                self.line@ == s,
                self.start == old(self).start,
                self.eol == old(self).eol,
                self.line == old(self).line,
                run_end(s, self.current as int, k) == target,
                target == run_end(old(self).line@, old(self).current as int, k),
            decreases self.len - self.current,
        {
            match self.peek() {
                Some(c) => {
                    if self.in_class(k, c) {
                        self.move_curr();
                    } else {
                        assert(run_end(s, self.current as int, k) == self.current as int);
                        return;
                    }
                },
                None => {
                    assert(run_end(s, self.current as int, k) == self.current as int);
                    return;
                },
            }
        }
    }

    /// The value of the digits at `[from, to)` in base `radix`, if it fits.
    fn numeral(&self, from: usize, to: usize, radix: usize) -> (r: Option<usize>)
        requires
            self.wf(),
            from <= to <= self.len,
            radix == 10 || radix == 16,
            forall|m: int| from <= m < to ==> is_hex_digit(#[trigger] self.line@[m]),
        ensures
            ({
                let v = numeral_value(self.line@.subrange(from as int, to as int), radix as nat);
                if v <= usize::MAX {
                    r == Some(v as usize)
                } else {
                    r is None
                }
            }),
    {
        let ghost s = self.line@.subrange(from as int, to as int);
        let mut v: usize = 0;
        let mut i: usize = from;
        while i < to
            invariant
                from <= i <= to,
                to <= self.len,
                self.wf(),
                s == self.line@.subrange(from as int, to as int),
                radix == 10 || radix == 16,
                forall|m: int| from <= m < to ==> is_hex_digit(#[trigger] self.line@[m]),
                v as nat == numeral_value(s.subrange(0, i - from), radix as nat),
            decreases to - i,
        {
            let c = self.line.get_char(i);
            let d = self.digit(c);
            let ghost pre = s.subrange(0, i + 1 - from);
            assert(pre.drop_last() =~= s.subrange(0, i - from));
            assert(pre.last() == c);
            match v.checked_mul(radix) {
                Some(m) => match m.checked_add(d) {
                    Some(n) => {
                        v = n;
                    },
                    None => {
                        proof {
                            lemma_numeral_prefix(s, i + 1 - from, radix as nat);
                        }
                        return None;
                    },
                },
                None => {
                    proof {
                        lemma_numeral_prefix(s, i + 1 - from, radix as nat);
                        assert(numeral_value(pre, radix as nat) >= v * radix) by (nonlinear_arith)
                            requires
                                numeral_value(pre, radix as nat) == numeral_value(
                                    pre.drop_last(),
                                    radix as nat,
                                ) * radix + digit_value(c),
                                v as nat == numeral_value(pre.drop_last(), radix as nat),
                        ;
                    }
                    return None;
                },
            }
            i = i + 1;
        }
        assert(s.subrange(0, i - from) =~= s);
        Some(v)
    }

    fn digit(&self, c: char) -> (r: usize)
        requires
            is_hex_digit(c),
        ensures
            r as nat == digit_value(c),
            r < 16,
    {
        if c >= '0' && c <= '9' {
            (c as u32 - '0' as u32) as usize
        } else if c >= 'a' && c <= 'f' {
            (c as u32 - 'a' as u32 + 10) as usize
        } else {
            (c as u32 - 'A' as u32 + 10) as usize
        }
    }

    fn identifier(&mut self) -> (r: Result<Token, Error>)
        requires
            old(self).wf(),
            old(self).start < old(self).current,
        ensures
            final(self).wf(),
            final(self).line == old(self).line,
            final(self).eol == old(self).eol,
            final(self).current == run_end(old(self).line@, old(self).current as int, CharClass::AlphaNumeric),
            r matches Ok(t) && t@ == TokenView::Ident(
                old(self).line@.subrange(old(self).start as int, final(self).current as int),
            ),
    {
        self.skip_class(CharClass::AlphaNumeric);
        let name = self.line.substring_char(self.start, self.current).to_owned();
        Ok(Token::Ident(name))
    }

    fn string(&mut self) -> (r: Result<Token, Error>)
        requires
            old(self).wf(),
            old(self).start + 1 == old(self).current,
        ensures
            final(self).wf(),
            final(self).line == old(self).line,
            final(self).eol == old(self).eol,
            ({
                let s = old(self).line@;
                let j = run_end(s, old(self).current as int, CharClass::NotQuote);
                if j >= s.len() {
                    r matches Err(e) && e@ == Fault::UnterminatedString
                } else {
                    &&& r matches Ok(t) && t@ == TokenView::Str(s.subrange(old(self).current as int, j))
                    &&& final(self).current == j + 1
                }
            }),
    {
        proof {
            lemma_run_end(self.line@, self.current as int, CharClass::NotQuote);
        }
        self.skip_class(CharClass::NotQuote);
        match self.peek() {
            Some(_) => {
                self.move_curr();
                let value = self.line.substring_char(self.start + 1, self.current - 1).to_owned();
                Ok(Token::Str(value))
            },
            None => Err(Error::UnterminatedString),
        }
    }

    fn integer(&mut self) -> (r: Result<Token, Error>)
        requires
            old(self).wf(),
            old(self).start < old(self).current,
            forall|m: int|
                old(self).start <= m < old(self).current ==> is_digit(#[trigger] old(self).line@[m]),
        ensures
            final(self).wf(),
            final(self).line == old(self).line,
            final(self).eol == old(self).eol,
            final(self).current == run_end(old(self).line@, old(self).current as int, CharClass::Digit),
            token_agrees(
                r,
                numeral_token(old(self).line@.subrange(old(self).start as int, final(self).current as int), 10),
            ),
    {
        proof {
            lemma_run_end(self.line@, self.current as int, CharClass::Digit);
        }
        self.skip_class(CharClass::Digit);
        match self.numeral(self.start, self.current, 10) {
            Some(n) => Ok(Token::Num(n)),
            None => Err(Error::InvalidInteger),
        }
    }

    fn integer_hex(&mut self) -> (r: Result<Token, Error>)
        requires
            old(self).wf(),
            old(self).start + 2 == old(self).current,
        ensures
            final(self).wf(),
            final(self).line == old(self).line,
            final(self).eol == old(self).eol,
            final(self).current == run_end(old(self).line@, old(self).current as int, CharClass::HexDigit),
            token_agrees(
                r,
                numeral_token(old(self).line@.subrange(old(self).current as int, final(self).current as int), 16),
            ),
    {
        proof {
            lemma_run_end(self.line@, self.current as int, CharClass::HexDigit);
        }
        let from = self.current;
        self.skip_class(CharClass::HexDigit);
        if from == self.current {
            return Err(Error::InvalidInteger);
        }
        match self.numeral(from, self.current, 16) {
            Some(n) => Ok(Token::Num(n)),
            None => Err(Error::InvalidInteger),
        }
    }

    fn probe_hex(&mut self) -> (r: Result<Token, Error>)
        requires
            old(self).wf(),
            old(self).start + 1 == old(self).current,
            old(self).line@[old(self).start as int] == '0',
        ensures
            final(self).wf(),
            final(self).line == old(self).line,
            final(self).eol == old(self).eol,
            scan_token(old(self).line@, old(self).start as int) matches Ok((t, j)) ==> r matches Ok(
                u,
            ) && u@ == t && final(self).current == j,
            scan_token(old(self).line@, old(self).start as int) matches Err(f) ==> r matches Err(e)
                && e@ == f,
    {
        match self.peek() {
            Some(c) => {
                if c == 'x' {
                    self.move_curr();
                    return self.integer_hex();
                }
            },
            None => {},
        }
        self.integer()
    }

    fn comment(&mut self) -> (r: Result<Token, Error>)
        ensures
            final(self).finished(),
            final(self).line == old(self).line,
            final(self).current == old(self).current,
            final(self).start == old(self).start,
            final(self).len == old(self).len,
            r matches Ok(t) && t@ == TokenView::Eol,
    {
        self.eol = true;
        Ok(Token::Eol)
    }

    /// The next token of the line: `None` once the end-of-line token has been
    /// handed out.
    pub fn next_token(&mut self) -> (r: Option<Result<Token, Error>>)
        requires
            old(self).wf(),
        ensures
            final(self).wf(),
            final(self).text() == old(self).text(),
            old(self).finished() ==> r is None,
            !old(self).finished() ==> match scan_token(old(self).text(), old(self).position()) {
                Ok((t, j)) => {
                    &&& r matches Some(Ok(u)) && u@ == t
                    &&& final(self).finished() == (t is Eol)
                    &&& !(t is Eol) ==> final(self).position() == j
                },
                Err(f) => r matches Some(Err(e)) && e@ == f,
            },
    {
        if self.is_eol() {
            return None;
        }
        let ghost s = self.line@;
        let ghost first = self.current as int;
        loop
            invariant
                self.wf(),
                self.line@ == s,
                self.line == old(self).line,
                !self.eol,
                !old(self).eol,
                first == old(self).current,
                scan_token(s, self.current as int) == scan_token(s, first),
            decreases self.len - self.current,
        {
            self.start = self.current;
            let c = match self.advance() {
                Some(c) => c,
                None => {
                    return Some(Ok(Token::Eol));
                },
            };
            let r = if c == ' ' || c == '\t' {
                None
            } else if c == '+' {
                Some(Ok(Token::Add))
            } else if c == '-' {
                Some(Ok(Token::Sub))
            } else if c == ':' {
                Some(Ok(Token::Semicolon))
            } else if c == ',' {
                Some(Ok(Token::Comma))
            } else if c == '$' {
                Some(Ok(Token::Dollar))
            } else if c == '.' {
                Some(Ok(Token::Dot))
            } else if c == '"' {
                Some(self.string())
            } else if c == '#' {
                Some(self.comment())
            } else if c == '0' {
                Some(self.probe_hex())
            } else if c >= '1' && c <= '9' {
                Some(self.integer())
            } else if (c >= 'a' && c <= 'z') || (c >= 'A' && c <= 'Z') || c == '_' {
                Some(self.identifier())
            } else {
                Some(Err(Error::UnknownCharacter(c)))
            };
            match r {
                Some(t) => {
                    return Some(t);
                },
                None => {},
            }
        }
    }
}

/// Splits one line into its tokens, the last of them the end-of-line token.
pub fn tokenize(line: &str) -> (r: Result<Vec<Token>, Error>)
    ensures
        match lex(line@) {
            Ok(ts) => r matches Ok(v) && tokens_view(v@) == ts,
            Err(f) => r matches Err(e) && e@ == f,
        },
{
    let mut lexer = Lexer::new(line);
    let mut tokens: Vec<Token> = Vec::new();
    loop
        invariant
            lexer.wf(),
            lexer.text() == line@,
            !lexer.finished(),
            0 <= lexer.position() <= line@.len(),
            match lex_from(line@, lexer.position()) {
                Ok(rest) => lex(line@) == Ok::<Seq<TokenView>, Fault>(tokens_view(tokens@) + rest),
                Err(f) => lex(line@) == Err::<Seq<TokenView>, Fault>(f),
            },
        decreases line@.len() - lexer.position(),
    {
        let ghost i = lexer.position();
        proof {
            lemma_scan_advances(line@, i);
        }
        match lexer.next_token() {
            Some(Ok(t)) => {
                let ghost tv = t@;
                let ghost before = tokens@;
                let eol = match t {
                    Token::Eol => true,
                    _ => false,
                };
                tokens.push(t);
                proof {
                    assert(tokens_view(tokens@) =~= tokens_view(before) + seq![tv]);
                }
                if eol {
                    return Ok(tokens);
                }
                proof {
                    match lex_from(line@, lexer.position()) {
                        Ok(rest) => {
                            assert(lex_from(line@, i) == Ok::<Seq<TokenView>, Fault>(seq![tv] + rest));
                            assert(tokens_view(tokens@) + rest =~= tokens_view(before) + (seq![tv]
                                + rest));
                        },
                        Err(f) => {
                            assert(lex_from(line@, i) == Err::<Seq<TokenView>, Fault>(f));
                        },
                    }
                }
            },
            Some(Err(e)) => {
                return Err(e);
            },
            None => {
                return Ok(tokens);
            },
        }
    }
}

/// Characters of class `k` all the way from `i` to the end: the run ends at
/// the end.
pub proof fn lemma_run_to_end(s: Seq<char>, i: int, k: CharClass)
    requires
        0 <= i <= s.len(),
        forall|m: int| i <= m < s.len() ==> in_class(k, #[trigger] s[m]),
    ensures
        run_end(s, i, k) == s.len(),
    decreases s.len() - i,
{
    if i < s.len() {
        lemma_run_to_end(s, i + 1, k);
    }
}

/// A decimal literal whose value fits in `usize` lexes to one integer token
/// with that value, then the end of the line.
pub proof fn lemma_decimal_literal(s: Seq<char>)
    requires
        s.len() > 0,
        forall|m: int| 0 <= m < s.len() ==> is_digit(#[trigger] s[m]),
        numeral_value(s, 10) <= usize::MAX,
    ensures
        lex(s) == Ok::<Seq<TokenView>, Fault>(
            seq![TokenView::Num(numeral_value(s, 10) as usize), TokenView::Eol],
        ),
{
    assert forall|m: int| 1 <= m < s.len() implies in_class(CharClass::Digit, #[trigger] s[m]) by {
        assert(is_digit(s[m]));
    }
    lemma_run_to_end(s, 1, CharClass::Digit);
    assert(is_digit(s[0]));
    if s.len() > 1 {
        assert(is_digit(s[1]));
    }
    assert(s.subrange(0, s.len() as int) =~= s);
    assert(scan_token(s, 0) == Ok::<(TokenView, int), Fault>(
        (TokenView::Num(numeral_value(s, 10) as usize), s.len() as int),
    ));
    assert(scan_token(s, s.len() as int) == Ok::<(TokenView, int), Fault>(
        (TokenView::Eol, s.len() as int),
    ));
    assert(lex_from(s, s.len() as int) == Ok::<Seq<TokenView>, Fault>(seq![TokenView::Eol]));
    assert(seq![TokenView::Num(numeral_value(s, 10) as usize)] + seq![TokenView::Eol] =~= seq![
        TokenView::Num(numeral_value(s, 10) as usize),
        TokenView::Eol,
    ]);
}

/// A `0x` literal whose hexadecimal digits give a value that fits in `usize`
/// lexes to one integer token with that value, then the end of the line.
pub proof fn lemma_hex_literal(h: Seq<char>)
    requires
        h.len() > 0,
        forall|m: int| 0 <= m < h.len() ==> is_hex_digit(#[trigger] h[m]),
        numeral_value(h, 16) <= usize::MAX,
    ensures
        lex(seq!['0', 'x'] + h) == Ok::<Seq<TokenView>, Fault>(
            seq![TokenView::Num(numeral_value(h, 16) as usize), TokenView::Eol],
        ),
{
    let s = seq!['0', 'x'] + h;
    assert forall|m: int| 2 <= m < s.len() implies in_class(CharClass::HexDigit, #[trigger] s[m]) by {
        assert(s[m] == h[m - 2]);
    }
    lemma_run_to_end(s, 2, CharClass::HexDigit);
    assert(s[0] == '0' && s[1] == 'x');
    assert(s.subrange(2, s.len() as int) =~= h);
    assert(scan_token(s, 0) == Ok::<(TokenView, int), Fault>(
        (TokenView::Num(numeral_value(h, 16) as usize), s.len() as int),
    ));
    assert(scan_token(s, s.len() as int) == Ok::<(TokenView, int), Fault>(
        (TokenView::Eol, s.len() as int),
    ));
    assert(lex_from(s, s.len() as int) == Ok::<Seq<TokenView>, Fault>(seq![TokenView::Eol]));
    assert(seq![TokenView::Num(numeral_value(h, 16) as usize)] + seq![TokenView::Eol] =~= seq![
        TokenView::Num(numeral_value(h, 16) as usize),
        TokenView::Eol,
    ]);
}

} // verus!
