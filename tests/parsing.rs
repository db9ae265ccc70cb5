use binlayout::error::Error;
use binlayout::lexer::tokenize;
use binlayout::parser::{BinaryOp, Expr, Parser};

fn parse_text(line: &str) -> Option<Result<Expr, Error>> {
    let tokens = tokenize(line).unwrap();
    let mut parser = Parser::new(&tokens);
    parser.parse()
}

#[test]
fn file_statement_parses() {
    let stmt = parse_text("10:buf:file,\"a.bin\"").unwrap().unwrap();
    match stmt {
        Expr::Statement { offset, variable, func } => {
            assert!(matches!(*offset, Expr::Literal(10)));
            assert_eq!(variable, "buf");
            match *func {
                Expr::Call { callee, args } => {
                    assert_eq!(callee, "file");
                    assert_eq!(args.len(), 1);
                    assert!(matches!(&args[0], Expr::Str(s) if s == "a.bin"));
                }
                _ => panic!("function part is not a call"),
            }
        }
        _ => panic!("not a statement"),
    }
}

#[test]
fn blank_and_comment_lines_give_nothing() {
    assert!(parse_text("").is_none());
    assert!(parse_text("  # only a comment").is_none());
}

#[test]
fn subtraction_groups_to_the_right() {
    let stmt = parse_text("10 - 4 - 3:_:u8,1").unwrap().unwrap();
    let Expr::Statement { offset, .. } = stmt else { panic!("not a statement") };
    match *offset {
        Expr::Binary { op: BinaryOp::Sub, left, right } => {
            assert!(matches!(*left, Expr::Literal(10)));
            match *right {
                Expr::Binary { op: BinaryOp::Sub, left, right } => {
                    assert!(matches!(*left, Expr::Literal(4)));
                    assert!(matches!(*right, Expr::Literal(3)));
                }
                _ => panic!("right operand is not a subtraction"),
            }
        }
        _ => panic!("offset is not a subtraction"),
    }
}

#[test]
fn variable_reference_and_constant_arguments() {
    let stmt = parse_text("$a.end:crc:crc16,ALGO,$a.start,$a.size").unwrap().unwrap();
    let Expr::Statement { offset, func, .. } = stmt else { panic!("not a statement") };
    assert!(matches!(*offset, Expr::Variable(ref q) if q == "a.end"));
    let Expr::Call { callee, args } = *func else { panic!("not a call") };
    assert_eq!(callee, "crc16");
    assert_eq!(args.len(), 3);
    assert!(matches!(&args[0], Expr::Const(n) if n == "ALGO"));
    assert!(matches!(&args[1], Expr::Variable(q) if q == "a.start"));
    assert!(matches!(&args[2], Expr::Variable(q) if q == "a.size"));
}

#[test]
fn syntax_errors() {
    assert!(matches!(parse_text("10 buf:u8,1"), Some(Err(Error::ExpectedSeparator))));
    assert!(matches!(parse_text("10:4:u8,1"), Some(Err(Error::ExpectedIdentifier))));
    assert!(matches!(parse_text("$a:x:u8,1"), Some(Err(Error::ExpectedDot))));
    assert!(matches!(parse_text("$a.:x:u8,1"), Some(Err(Error::ExpectedIdentifier))));
    assert!(matches!(parse_text(":x:u8,1"), Some(Err(Error::UnexpectedPrimary))));
    assert!(matches!(parse_text("1 +:x:u8,1"), Some(Err(Error::UnexpectedPrimary))));
    assert!(matches!(parse_text("0:x:u8,1 2"), Some(Err(Error::ExpectedEndOfLine))));
}

#[test]
fn tokens_without_end_of_line_are_an_error() {
    let tokens = tokenize("0:x:u8,1").unwrap();
    let shorter = &tokens[..tokens.len() - 1];
    let mut parser = Parser::new(shorter);
    assert!(matches!(parser.parse(), Some(Err(Error::UnexpectedEndOfInput))));
    let mut empty = Parser::new(&[]);
    assert!(matches!(empty.parse(), Some(Err(Error::UnexpectedEndOfInput))));
}
