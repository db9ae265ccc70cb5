use vstd::prelude::*;

use crate::checksum::{Crc16Algorithm, crc16_checksum, crc16_of};
use crate::env::{Constants, Variables, start_key, size_key, end_key, with_region};
use crate::error::{Error, Fault, agrees};
use crate::image::{Image, region_bytes, written};
use crate::lexer::{is_digit, lemma_numeral_prefix, lex, numeral_value, tokenize};
use crate::parser::{Expr, ExprView, BinaryOp, Parser, StatementView, exprs_view, parse_line, statement_of};

verus! {

/// The value of a constant's text read in base 10, as `usize::from_str_radix`
/// reads it: an optional `+`, then one or more digits, within `usize`.
pub open spec fn decimal_value(s: Seq<char>) -> Option<usize> {
    let digits = decimal_digits(s);
    if digits.len() > 0 && all_digits(digits) && numeral_value(digits, 10) <= usize::MAX {
        Some(numeral_value(digits, 10) as usize)
    } else {
        None
    }
}

/// The text of a base-10 number without its leading `+`.
pub open spec fn decimal_digits(s: Seq<char>) -> Seq<char> {
    if s.len() > 0 && s[0] == '+' {
        s.drop_first()
    } else {
        s
    }
}

pub open spec fn all_digits(d: Seq<char>) -> bool {
    forall|k: int| 0 <= k < d.len() ==> is_digit(#[trigger] d[k])
}

/// The value of an expression in numeric position.
pub open spec fn eval(
    c: Map<Seq<char>, Seq<char>>,
    v: Map<Seq<char>, usize>,
    e: ExprView,
) -> Result<usize, Fault>
    decreases e,
{
    match e {
        ExprView::Literal(x) => Ok(x),
        ExprView::Variable(q) => if v.contains_key(q) {
            Ok(v[q])
        } else {
            Err(Fault::UndefinedVariable(q))
        },
        ExprView::Const(n) => if !c.contains_key(n) {
            Err(Fault::UndefinedConstant(n))
        } else {
            match decimal_value(c[n]) {
                Some(x) => Ok(x),
                None => Err(Fault::InvalidConstantValue(n)),
            }
        },
        ExprView::Binary { op, left, right } => match eval(c, v, *left) {
            Err(f) => Err(f),
            Ok(a) => match eval(c, v, *right) {
                Err(f) => Err(f),
                Ok(b) => if op == BinaryOp::Add {
                    if a + b <= usize::MAX {
                        Ok((a + b) as usize)
                    } else {
                        Err(Fault::ArithmeticOverflow)
                    }
                } else {
                    if a >= b {
                        Ok((a - b) as usize)
                    } else {
                        Err(Fault::ArithmeticOverflow)
                    }
                },
            },
        },
        _ => Err(Fault::InvalidExpression),
    }
}

/// The builtin placement operations.
#[derive(PartialEq, Eq, Structural, Clone, Copy, Debug)]
pub enum Builtin {
    File,
    Url,
    U8,
    U16,
    U32,
    Crc16,
}

pub open spec fn builtin_named(name: Seq<char>) -> Option<Builtin> {
    if name == "file"@ {
        Some(Builtin::File)
    } else if name == "url"@ {
        Some(Builtin::Url)
    } else if name == "u8"@ {
        Some(Builtin::U8)
    } else if name == "u16"@ {
        Some(Builtin::U16)
    } else if name == "u32"@ {
        Some(Builtin::U32)
    } else if name == "crc16"@ {
        Some(Builtin::Crc16)
    } else {
        None
    }
}

pub open spec fn algorithm_named(name: Seq<char>) -> Option<Crc16Algorithm> {
    if name == "ibm_sdlc"@ {
        Some(Crc16Algorithm::IbmSdlc)
    } else if name == "modbus"@ {
        Some(Crc16Algorithm::Modbus)
    } else {
        None
    }
}

/// Where the contents of a `file` or `url` statement come from.
#[derive(PartialEq, Eq, Structural, Clone, Copy, Debug)]
pub enum SourceKind {
    File,
    Url,
}

/// A resource that a statement needs before it can be placed.
pub struct Source {
    pub kind: SourceKind,
    pub location: String,
}

/// What executing a statement came to.
pub enum Outcome {
    /// The statement was placed and its region recorded.
    Done,
    /// The line holds no statement.
    Blank,
    /// The statement needs the contents of this resource: execute it again
    /// with them.
    Fetch(Source),
}

/// What a builtin decides: to ask for a resource, or the bytes to place.
pub enum Placement {
    Fetch(SourceKind, Seq<char>),
    Bytes(Seq<u8>),
}

/// The text of a path, URL or algorithm argument.
pub open spec fn text_arg(c: Map<Seq<char>, Seq<char>>, a: ExprView) -> Result<Seq<char>, Fault> {
    match a {
        ExprView::Str(s) => Ok(s),
        ExprView::Const(n) => if c.contains_key(n) {
            Ok(c[n])
        } else {
            Err(Fault::UndefinedConstant(n))
        },
        _ => Err(Fault::ExpectedStringOrConstant),
    }
}

/// `v` as `w` bytes, least significant first.
pub open spec fn le_bytes(v: nat, w: nat) -> Seq<u8>
    decreases w,
{
    if w == 0 {
        Seq::empty()
    } else {
        seq![(v % 256) as u8] + le_bytes(v / 256, (w - 1) as nat)
    }
}

pub open spec fn width_of(b: Builtin) -> nat {
    match b {
        Builtin::U8 => 1,
        Builtin::U16 => 2,
        _ => 4,
    }
}

pub open spec fn max_of_width(w: nat) -> nat {
    if w == 1 {
        0xff
    } else if w == 2 {
        0xffff
    } else {
        0xffff_ffff
    }
}

/// What builtin `b` places, given its arguments, the image as it stands and,
/// for `file` and `url`, the fetched contents.
pub open spec fn place(
    c: Map<Seq<char>, Seq<char>>,
    v: Map<Seq<char>, usize>,
    img: Seq<u8>,
    b: Builtin,
    args: Seq<ExprView>,
    fetched: Option<Seq<u8>>,
) -> Result<Placement, Fault> {
    match b {
        Builtin::File | Builtin::Url => if args.len() != 1 {
            Err(Fault::WrongArgumentCount)
        } else {
            match text_arg(c, args[0]) {
                Err(f) => Err(f),
                Ok(t) => match fetched {
                    None => Ok(
                        Placement::Fetch(
                            if b == Builtin::File {
                                SourceKind::File
                            } else {
                                SourceKind::Url
                            },
                            t,
                        ),
                    ),
                    Some(d) => Ok(Placement::Bytes(d)),
                },
            }
        },
        Builtin::U8 | Builtin::U16 | Builtin::U32 => if args.len() != 1 {
            Err(Fault::WrongArgumentCount)
        } else {
            match eval(c, v, args[0]) {
                Err(f) => Err(f),
                Ok(x) => if x > max_of_width(width_of(b)) {
                    Err(Fault::ValueTooWide)
                } else {
                    Ok(Placement::Bytes(le_bytes(x as nat, width_of(b))))
                },
            }
        },
        Builtin::Crc16 => if args.len() != 3 {
            Err(Fault::WrongArgumentCount)
        } else {
            match text_arg(c, args[0]) {
                Err(f) => Err(f),
                Ok(name) => match eval(c, v, args[1]) {
                    Err(f) => Err(f),
                    Ok(addr) => match eval(c, v, args[2]) {
                        Err(f) => Err(f),
                        Ok(len) => match algorithm_named(name) {
                            None => Err(Fault::UnknownAlgorithm(name)),
                            Some(a) => Ok(
                                Placement::Bytes(
                                    le_bytes(
                                        crc16_of(a, region_bytes(img, addr as int, len as nat)) as nat,
                                        2,
                                    ),
                                ),
                            ),
                        },
                    },
                },
            }
        },
    }
}

/// The effect of one statement.
pub enum Step {
    /// Nothing changes until the resource's contents are given.
    Fetch(SourceKind, Seq<char>),
    /// `bytes` are written at `pos` and the environment becomes `vars`.
    Placed { pos: usize, bytes: Seq<u8>, vars: Map<Seq<char>, usize> },
}

/// What a statement comes to before its region is recorded: a request for a
/// resource, or bytes to write at `pos` for `destination`.
pub enum Prepared {
    Fetch(SourceKind, Seq<char>),
    Bytes { pos: usize, bytes: Seq<u8>, destination: Seq<char> },
}

/// Everything that executing a statement decides before recording its
/// region: the offset, the builtin, its arguments and its bytes.
pub open spec fn prepare_statement(
    c: Map<Seq<char>, Seq<char>>,
    v: Map<Seq<char>, usize>,
    img: Seq<u8>,
    sv: StatementView,
    fetched: Option<Seq<u8>>,
) -> Result<Prepared, Fault> {
    match eval(c, v, sv.offset) {
        Err(f) => Err(f),
        Ok(pos) => match builtin_named(sv.callee) {
            None => Err(Fault::UnknownFunction(sv.callee)),
            Some(b) => match place(c, v, img, b, sv.args, fetched) {
                Err(f) => Err(f),
                Ok(Placement::Fetch(k, t)) => Ok(Prepared::Fetch(k, t)),
                Ok(Placement::Bytes(d)) => if pos + d.len() > usize::MAX {
                    Err(Fault::ArithmeticOverflow)
                } else {
                    Ok(Prepared::Bytes { pos, bytes: d, destination: sv.destination })
                },
            },
        },
    }
}

/// The same for any expression: one that is no statement, or whose function
/// part is no call, is an invalid statement (after its offset is evaluated).
pub open spec fn prepare(
    c: Map<Seq<char>, Seq<char>>,
    v: Map<Seq<char>, usize>,
    img: Seq<u8>,
    stmt: Expr,
    fetched: Option<Seq<u8>>,
) -> Result<Prepared, Fault> {
    match stmt {
        Expr::Statement { offset, .. } => match statement_of(stmt) {
            Some(sv) => prepare_statement(c, v, img, sv, fetched),
            None => match eval(c, v, (*offset)@) {
                Err(f) => Err(f),
                Ok(_) => Err(Fault::InvalidStatement),
            },
        },
        _ => Err(Fault::InvalidStatement),
    }
}

/// Recording what was prepared in `v`: a destination other than `_` is
/// recorded, unless it already is.
pub open spec fn record(v: Map<Seq<char>, usize>, p: Result<Prepared, Fault>) -> Result<Step, Fault> {
    match p {
        Err(f) => Err(f),
        Ok(Prepared::Fetch(k, t)) => Ok(Step::Fetch(k, t)),
        Ok(Prepared::Bytes { pos, bytes, destination }) => if destination == seq!['_'] {
            Ok(Step::Placed { pos, bytes, vars: v })
        } else if v.contains_key(start_key(destination)) {
            Err(Fault::DuplicateDefinition(destination))
        } else {
            Ok(
                Step::Placed {
                    pos,
                    bytes,
                    vars: with_region(v, destination, pos, bytes.len() as usize),
                },
            )
        },
    }
}

/// What executing statement `stmt` does, against constants `c`, variables
/// `v` and image `img`.
pub open spec fn step(
    c: Map<Seq<char>, Seq<char>>,
    v: Map<Seq<char>, usize>,
    img: Seq<u8>,
    stmt: Expr,
    fetched: Option<Seq<u8>>,
) -> Result<Step, Fault> {
    record(v, prepare(c, v, img, stmt, fetched))
}

/// The result `r` and the states before and after carry out step `s`.
pub open spec fn carried_out(
    r: Result<Outcome, Error>,
    v0: Map<Seq<char>, usize>,
    v1: Map<Seq<char>, usize>,
    i0: Seq<u8>,
    i1: Seq<u8>,
    s: Result<Step, Fault>,
) -> bool {
    match s {
        Err(f) => {
            &&& r matches Err(e) && e@ == f
            &&& v1 == v0
            &&& i1 == i0
        },
        Ok(Step::Fetch(k, t)) => {
            &&& r matches Ok(Outcome::Fetch(src)) && src.kind == k && src.location@ == t
            &&& v1 == v0
            &&& i1 == i0
        },
        Ok(Step::Placed { pos, bytes, vars }) => {
            &&& r matches Ok(Outcome::Done)
            &&& v1 == vars
            &&& i1 == written(i0, pos as int, bytes)
        },
    }
}

pub open spec fn fetched_view(f: Option<Vec<u8>>) -> Option<Seq<u8>> {
    match f {
        Some(d) => Some(d@),
        None => None,
    }
}

/// Whether two texts are the same.
fn text_is(s: &str, lit: &str) -> (r: bool)
    ensures
        r == (s@ == lit@),
{
    let n = s.unicode_len();
    let m = lit.unicode_len();
    if n != m {
        return false;
    }
    let mut i: usize = 0;
    while i < n
        invariant
            i <= n,
            n == s@.len(),
            m == lit@.len(),
            n == m,
            forall|k: int| 0 <= k < i ==> s@[k] == lit@[k],
        decreases n - i,
    {
        if s.get_char(i) != lit.get_char(i) {
            return false;
        }
        i = i + 1;
    }
    assert(s@ =~= lit@);
    true
}

/// The value of a text in base 10 (`+` allowed in front), if it is one.
pub fn parse_decimal(s: &str) -> (r: Option<usize>)
    ensures
        r == decimal_value(s@),
{
    let n = s.unicode_len();
    let mut i: usize = 0;
    if n > 0 && s.get_char(0) == '+' {
        i = 1;
    }
    let ghost from = i as int;
    let ghost digits = decimal_digits(s@);
    assert(digits =~= s@.subrange(from, n as int));
    if i == n {
        return None;
    }
    let mut v: usize = 0;
    let mut overflow = false;
    while i < n
        invariant
            0 <= from <= i <= n,
            n == s@.len(),
            from < n,
            digits == s@.subrange(from, n as int),
            digits == decimal_digits(s@),
            forall|k: int| 0 <= k < i - from ==> is_digit(#[trigger] digits[k]),
            !overflow ==> v as nat == numeral_value(digits.subrange(0, i - from), 10),
            overflow ==> numeral_value(digits, 10) > usize::MAX,
        decreases n - i,
    {
        let c = s.get_char(i);
        assert(digits[i - from] == c);
        if c < '0' || c > '9' {
            assert(!is_digit(digits[i - from]));
            assert(!all_digits(digits));
            return None;
        }
        if !overflow {
            let ghost pre = digits.subrange(0, i + 1 - from);
            assert(pre.drop_last() =~= digits.subrange(0, i - from));
            let d = (c as u32 - '0' as u32) as usize;
            match v.checked_mul(10) {
                Some(m) => match m.checked_add(d) {
                    Some(x) => {
                        v = x;
                    },
                    None => {
                        proof {
                            lemma_numeral_prefix(digits, i + 1 - from, 10);
                        }
                        overflow = true;
                    },
                },
                None => {
                    proof {
                        lemma_numeral_prefix(digits, i + 1 - from, 10);
                    }
                    overflow = true;
                },
            }
        }
        i = i + 1;
    }
    if overflow {
        return None;
    }
    assert(digits.subrange(0, n - from) =~= digits);
    Some(v)
}

/// The value of an expression in numeric position.
pub fn evaluate(consts: &Constants, vars: &Variables, expr: &Expr) -> (r: Result<usize, Error>)
    ensures
        agrees(r, eval(consts@, vars@, expr@)),
    decreases expr,
{
    match expr {
        Expr::Literal(value) => Ok(*value),
        Expr::Variable(name) => match vars.get(name.as_str()) {
            Some(value) => Ok(value),
            None => Err(Error::UndefinedVariable(name.clone())),
        },
        Expr::Const(name) => match consts.get(name.as_str()) {
            Some(text) => match parse_decimal(text.as_str()) {
                Some(value) => Ok(value),
                None => Err(Error::InvalidConstantValue(name.clone())),
            },
            None => Err(Error::UndefinedConstant(name.clone())),
        },
        Expr::Binary { op, left, right } => {
            let op1 = evaluate(consts, vars, left)?;
            let op2 = evaluate(consts, vars, right)?;
            match op {
                BinaryOp::Add => match op1.checked_add(op2) {
                    Some(x) => Ok(x),
                    None => Err(Error::ArithmeticOverflow),
                },
                BinaryOp::Sub => if op1 >= op2 {
                    Ok(op1 - op2)
                } else {
                    Err(Error::ArithmeticOverflow)
                },
            }
        },
        _ => Err(Error::InvalidExpression),
    }
}

/// The builtin with this name, if there is one.
pub fn lookup_builtin(name: &str) -> (r: Option<Builtin>)
    ensures
        r == builtin_named(name@),
{
    if text_is(name, "file") {
        Some(Builtin::File)
    } else if text_is(name, "url") {
        Some(Builtin::Url)
    } else if text_is(name, "u8") {
        Some(Builtin::U8)
    } else if text_is(name, "u16") {
        Some(Builtin::U16)
    } else if text_is(name, "u32") {
        Some(Builtin::U32)
    } else if text_is(name, "crc16") {
        Some(Builtin::Crc16)
    } else {
        None
    }
}

/// The checksum algorithm with this name, if there is one.
pub fn lookup_algorithm(name: &str) -> (r: Option<Crc16Algorithm>)
    ensures
        r == algorithm_named(name@),
{
    if text_is(name, "ibm_sdlc") {
        Some(Crc16Algorithm::IbmSdlc)
    } else if text_is(name, "modbus") {
        Some(Crc16Algorithm::Modbus)
    } else {
        None
    }
}

/// The text of a path, URL or algorithm argument.
fn text_argument(consts: &Constants, arg: &Expr) -> (r: Result<String, Error>)
    ensures
        match text_arg(consts@, arg@) {
            Ok(t) => r matches Ok(s) && s@ == t,
            Err(f) => r matches Err(e) && e@ == f,
        },
{
    match arg {
        Expr::Str(value) => Ok(value.clone()),
        Expr::Const(name) => match consts.get(name.as_str()) {
            Some(value) => Ok(value),
            None => Err(Error::UndefinedConstant(name.clone())),
        },
        _ => Err(Error::ExpectedStringOrConstant),
    }
}

/// `value` as `width` bytes, least significant first.
pub fn to_le_bytes(value: usize, width: usize) -> (r: Vec<u8>)
    ensures
        r@ == le_bytes(value as nat, width as nat),
{
    let mut out: Vec<u8> = Vec::new();
    let mut x = value;
    let mut i: usize = 0;
    while i < width
        invariant
            i <= width,
            le_bytes(value as nat, width as nat) == out@ + le_bytes(x as nat, (width - i) as nat),
        decreases width - i,
    {
        let ghost before = out@;
        let ghost rest = le_bytes((x / 256) as nat, (width - i - 1) as nat);
        assert(le_bytes(x as nat, (width - i) as nat) == seq![(x % 256) as u8] + rest);
        out.push((x % 256) as u8);
        assert(before + (seq![(x % 256) as u8] + rest) =~= out@ + rest);
        x = x / 256;
        i = i + 1;
    }
    assert(out@ + le_bytes(x as nat, 0) =~= out@);
    out
}

/// What a builtin decides, for the executor.
pub enum Effect {
    Fetch(Source),
    Bytes(Vec<u8>),
}

pub open spec fn effect_agrees(r: Result<Effect, Error>, m: Result<Placement, Fault>) -> bool {
    match (r, m) {
        (Ok(Effect::Fetch(s)), Ok(Placement::Fetch(k, t))) => s.kind == k && s.location@ == t,
        (Ok(Effect::Bytes(d)), Ok(Placement::Bytes(b))) => d@ == b,
        (Err(e), Err(f)) => e@ == f,
        _ => false,
    }
}

/// `file` and `url`: the contents given, or a request for them.
fn func_source(
    consts: &Constants,
    kind: SourceKind,
    args: &Vec<Expr>,
    fetched: Option<Vec<u8>>,
) -> (r: Result<Effect, Error>)
    ensures
        args@.len() != 1 ==> (r matches Err(e) && e@ == Fault::WrongArgumentCount),
        args@.len() == 1 ==> match text_arg(consts@, args@[0]@) {
            Err(f) => r matches Err(e) && e@ == f,
            Ok(t) => match fetched {
                None => r matches Ok(Effect::Fetch(s)) && s.kind == kind && s.location@ == t,
                Some(d) => r matches Ok(Effect::Bytes(b)) && b@ == d@,
            },
        },
{
    if args.len() != 1 {
        return Err(Error::WrongArgumentCount);
    }
    let location = text_argument(consts, &args[0])?;
    match fetched {
        None => Ok(Effect::Fetch(Source { kind, location })),
        Some(data) => Ok(Effect::Bytes(data)),
    }
}

/// `u8`, `u16` and `u32`: the value in `width` bytes, if it fits.
fn func_fixed(consts: &Constants, vars: &Variables, args: &Vec<Expr>, width: usize) -> (r: Result<
    Effect,
    Error,
>)
    requires
        width == 1 || width == 2 || width == 4,
    ensures
        args@.len() != 1 ==> (r matches Err(e) && e@ == Fault::WrongArgumentCount),
        args@.len() == 1 ==> match eval(consts@, vars@, args@[0]@) {
            Err(f) => r matches Err(e) && e@ == f,
            Ok(x) => if x > max_of_width(width as nat) {
                r matches Err(e) && e@ == Fault::ValueTooWide
            } else {
                r matches Ok(Effect::Bytes(b)) && b@ == le_bytes(x as nat, width as nat)
            },
        },
{
    if args.len() != 1 {
        return Err(Error::WrongArgumentCount);
    }
    let value = evaluate(consts, vars, &args[0])?;
    let max: usize = if width == 1 {
        0xff
    } else if width == 2 {
        0xffff
    } else {
        0xffff_ffff
    };
    if value > max {
        return Err(Error::ValueTooWide);
    }
    Ok(Effect::Bytes(to_le_bytes(value, width)))
}

/// `crc16`: the checksum of a region already in the image.
fn func_crc16(consts: &Constants, vars: &Variables, image: &Image, args: &Vec<Expr>) -> (r: Result<
    Effect,
    Error,
>)
    ensures
        effect_agrees(
            r,
            place(consts@, vars@, image@, Builtin::Crc16, exprs_view(args@), None),
        ),
{
    if args.len() != 3 {
        return Err(Error::WrongArgumentCount);
    }
    proof {
        assert(exprs_view(args@)[0] == args@[0]@);
        assert(exprs_view(args@)[1] == args@[1]@);
        assert(exprs_view(args@)[2] == args@[2]@);
    }
    let algo_name = text_argument(consts, &args[0])?;
    let addr = evaluate(consts, vars, &args[1])?;
    let length = evaluate(consts, vars, &args[2])?;
    let bin = image.read_at(addr, length);
    match lookup_algorithm(algo_name.as_str()) {
        Some(algorithm) => {
            let crc = crc16_checksum(algorithm, &bin);
            Ok(Effect::Bytes(to_le_bytes(crc as usize, 2)))
        },
        None => Err(Error::UnknownAlgorithm(algo_name)),
    }
}

/// Executes one statement: evaluates its offset, runs its builtin, writes the
/// bytes at the offset and records the region under its destination name
/// (unless that name is `_`). A `file` or `url` statement given no contents
/// changes nothing and asks for them.
pub fn interpret(
    consts: &Constants,
    vars: &mut Variables,
    image: &mut Image,
    stmt: &Expr,
    fetched: Option<Vec<u8>>,
) -> (r: Result<Outcome, Error>)
    ensures
        old(vars).wf() ==> final(vars).wf(),
        carried_out(
            r,
            old(vars)@,
            final(vars)@,
            old(image)@,
            final(image)@,
            step(consts@, old(vars)@, old(image)@, *stmt, fetched_view(fetched)),
        ),
{
    let (offset, variable, func) = match stmt {
        Expr::Statement { offset, variable, func } => (offset, variable, func),
        _ => {
            return Err(Error::InvalidStatement);
        },
    };
    let pos = evaluate(consts, vars, offset)?;
    let (callee, args) = match &**func {
        Expr::Call { callee, args } => (callee, args),
        _ => {
            return Err(Error::InvalidStatement);
        },
    };
    proof {
        if args@.len() > 0 {
            assert(exprs_view(args@)[0] == args@[0]@);
        }
    }
    let builtin = match lookup_builtin(callee.as_str()) {
        Some(b) => b,
        None => {
            return Err(Error::UnknownFunction(callee.clone()));
        },
    };
    let effect = match builtin {
        Builtin::File => func_source(consts, SourceKind::File, args, fetched),
        Builtin::Url => func_source(consts, SourceKind::Url, args, fetched),
        Builtin::U32 => func_fixed(consts, vars, args, 4),
        Builtin::U16 => func_fixed(consts, vars, args, 2),
        Builtin::U8 => func_fixed(consts, vars, args, 1),
        Builtin::Crc16 => func_crc16(consts, vars, image, args),
    }?;
    let data = match effect {
        Effect::Fetch(source) => {
            return Ok(Outcome::Fetch(source));
        },
        Effect::Bytes(data) => data,
    };
    if data.len() > usize::MAX - pos {
        return Err(Error::ArithmeticOverflow);
    }
    proof {
        reveal_strlit("_");
        assert("_"@ =~= seq!['_']);
    }
    if !text_is(variable.as_str(), "_") {
        vars.add_variables(variable.as_str(), pos, data.len())?;
    }
    image.write_at(pos, &data);
    Ok(Outcome::Done)
}

/// Executes one line of a script: lexes it, parses it and executes its
/// statement. A blank or comment line changes nothing.
pub fn run_line(
    consts: &Constants,
    vars: &mut Variables,
    image: &mut Image,
    line: &str,
    fetched: Option<Vec<u8>>,
) -> (r: Result<Outcome, Error>)
    ensures
        old(vars).wf() ==> final(vars).wf(),
        match lex(line@) {
            Err(f) => carried_out(r, old(vars)@, final(vars)@, old(image)@, final(image)@, Err(f)),
            Ok(ts) => match parse_line(ts, 0) {
                None => {
                    &&& r matches Ok(Outcome::Blank)
                    &&& final(vars)@ == old(vars)@
                    &&& final(image)@ == old(image)@
                },
                Some(Err(f)) => carried_out(
                    r,
                    old(vars)@,
                    final(vars)@,
                    old(image)@,
                    final(image)@,
                    Err(f),
                ),
                Some(Ok(sv)) => carried_out(
                    r,
                    old(vars)@,
                    final(vars)@,
                    old(image)@,
                    final(image)@,
                    record(
                        old(vars)@,
                        prepare_statement(consts@, old(vars)@, old(image)@, sv, fetched_view(fetched)),
                    ),
                ),
            },
        },
{
    let tokens = tokenize(line)?;
    let mut parser = Parser::new(tokens.as_slice());
    match parser.parse() {
        None => Ok(Outcome::Blank),
        Some(Err(e)) => Err(e),
        Some(Ok(stmt)) => interpret(consts, vars, image, &stmt, fetched),
    }
}

/// The destination name of a statement.
pub open spec fn destination_of(stmt: Expr) -> Option<Seq<char>> {
    match stmt {
        Expr::Statement { variable, .. } => Some(variable@),
        _ => None,
    }
}

/// The offset expression of a statement.
pub open spec fn offset_of(stmt: Expr) -> Option<ExprView> {
    match stmt {
        Expr::Statement { offset, .. } => Some((*offset)@),
        _ => None,
    }
}

/// `$a.start + $a.size` has the value of `$a.end` for every recorded region `a`.
pub proof fn lemma_start_plus_size_is_end(
    c: Map<Seq<char>, Seq<char>>,
    vars: Variables,
    a: Seq<char>,
)
    requires
        vars.wf(),
        vars@.contains_key(start_key(a)),
    ensures
        eval(
            c,
            vars@,
            ExprView::Binary {
                op: BinaryOp::Add,
                left: Box::new(ExprView::Variable(start_key(a))),
                right: Box::new(ExprView::Variable(size_key(a))),
            },
        ) == eval(c, vars@, ExprView::Variable(end_key(a))),
        eval(c, vars@, ExprView::Variable(end_key(a))) is Ok,
{
    vars.lemma_wf_consistent();
    let m = vars@;
    assert(m.contains_key(size_key(a)) && m.contains_key(end_key(a)));
    assert(eval(c, m, ExprView::Variable(start_key(a))) == Ok::<usize, Fault>(m[start_key(a)]));
    assert(eval(c, m, ExprView::Variable(size_key(a))) == Ok::<usize, Fault>(m[size_key(a)]));
}

/// A statement whose offset refers to an undefined variable or constant fails
/// with an error that names it; `interpret` then changes nothing.
pub proof fn lemma_undefined_reference_fails(
    c: Map<Seq<char>, Seq<char>>,
    v: Map<Seq<char>, usize>,
    img: Seq<u8>,
    stmt: Expr,
    fetched: Option<Seq<u8>>,
    name: Seq<char>,
)
    ensures
        offset_of(stmt) == Some(ExprView::Variable(name)) && !v.contains_key(name) ==> step(
            c,
            v,
            img,
            stmt,
            fetched,
        ) == Err::<Step, Fault>(Fault::UndefinedVariable(name)),
        offset_of(stmt) == Some(ExprView::Const(name)) && !c.contains_key(name) ==> step(
            c,
            v,
            img,
            stmt,
            fetched,
        ) == Err::<Step, Fault>(Fault::UndefinedConstant(name)),
{
}

/// A statement with destination `_` records nothing and cannot fail as a
/// duplicate: recording changes neither its outcome nor the environment.
pub proof fn lemma_discard_records_nothing(
    c: Map<Seq<char>, Seq<char>>,
    v: Map<Seq<char>, usize>,
    img: Seq<u8>,
    stmt: Expr,
    fetched: Option<Seq<u8>>,
)
    requires
        destination_of(stmt) == Some(seq!['_']),
    ensures
        step(c, v, img, stmt, fetched) == match prepare(c, v, img, stmt, fetched) {
            Err(f) => Err(f),
            Ok(Prepared::Fetch(k, t)) => Ok(Step::Fetch(k, t)),
            Ok(Prepared::Bytes { pos, bytes, .. }) => Ok(Step::Placed { pos, bytes, vars: v }),
        },
{
}

/// A statement whose destination is already recorded is never placed: where
/// it would otherwise be, it fails as a duplicate, and `interpret` then keeps
/// the first record.
pub proof fn lemma_duplicate_rejected(
    c: Map<Seq<char>, Seq<char>>,
    v: Map<Seq<char>, usize>,
    img: Seq<u8>,
    stmt: Expr,
    fetched: Option<Seq<u8>>,
    name: Seq<char>,
)
    requires
        destination_of(stmt) == Some(name),
        name != seq!['_'],
        v.contains_key(start_key(name)),
    ensures
        !(step(c, v, img, stmt, fetched) matches Ok(Step::Placed { .. })),
        prepare(c, v, img, stmt, fetched) matches Ok(Prepared::Bytes { .. }) ==> step(
            c,
            v,
            img,
            stmt,
            fetched,
        ) == Err::<Step, Fault>(Fault::DuplicateDefinition(name)),
{
}

/// A `u32` statement with value `0x01020304` at offset `n` writes the bytes
/// `04 03 02 01` at `n`.
pub proof fn lemma_u32_little_endian(
    c: Map<Seq<char>, Seq<char>>,
    v: Map<Seq<char>, usize>,
    img: Seq<u8>,
    stmt: Expr,
    n: usize,
)
    requires
        offset_of(stmt) == Some(ExprView::Literal(n)),
        match stmt {
            Expr::Statement { func, .. } => match *func {
                Expr::Call { callee, args } => callee@ == "u32"@ && exprs_view(args@) == seq![
                    ExprView::Literal(0x01020304),
                ],
                _ => false,
            },
            _ => false,
        },
        n + 4 <= usize::MAX,
    ensures
        prepare(c, v, img, stmt, None) matches Ok(Prepared::Bytes { pos, bytes, .. }) && pos == n
            && bytes == seq![4u8, 3u8, 2u8, 1u8] && written(img, n as int, bytes).subrange(
            n as int,
            n + 4,
        ) == bytes,
{
    reveal_strlit("u32");
    reveal_strlit("file");
    reveal_strlit("url");
    reveal_strlit("u8");
    reveal_strlit("u16");
    let bytes = le_bytes(0x01020304, 4);
    reveal_with_fuel(le_bytes, 5);
    assert(bytes =~= seq![4u8, 3u8, 2u8, 1u8]);
    if let Expr::Statement { offset, variable, func } = stmt {
        if let Expr::Call { callee, args } = *func {
            let av = exprs_view(args@);
            assert(av[0] == ExprView::Literal(0x01020304));
            assert(eval(c, v, (*offset)@) == Ok::<usize, Fault>(n));
            assert("u32"@[1] != "url"@[1]);
            assert("u32"@[1] != "u16"@[1]);
            assert(builtin_named(callee@) == Some(Builtin::U32));
            assert(eval(c, v, av[0]) == Ok::<usize, Fault>(0x01020304));
            assert(place(c, v, img, Builtin::U32, av, None) == Ok::<Placement, Fault>(
                Placement::Bytes(bytes),
            ));
        }
    }
    assert(written(img, n as int, bytes).subrange(n as int, n + 4) =~= bytes);
}

} // verus!
