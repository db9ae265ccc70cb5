use binlayout::env::{parse_consts, valid_const_name, Constants, Variables};
use binlayout::error::Error;
use binlayout::image::Image;
use binlayout::interp::{parse_decimal, run_line, Outcome, SourceKind};

struct Run {
    consts: Constants,
    vars: Variables,
    image: Image,
}

impl Run {
    fn new() -> Run {
        Run { consts: Constants::new(), vars: Variables::new(), image: Image::new() }
    }

    fn line(&mut self, line: &str) -> Result<Outcome, Error> {
        run_line(&self.consts, &mut self.vars, &mut self.image, line, None)
    }

    fn line_with(&mut self, line: &str, data: Vec<u8>) -> Result<Outcome, Error> {
        run_line(&self.consts, &mut self.vars, &mut self.image, line, Some(data))
    }

    fn bytes(&self) -> Vec<u8> {
        self.image.as_bytes().clone()
    }
}

#[test]
fn file_statement_copies_source_and_records_region() {
    let mut run = Run::new();
    let source = vec![0xde, 0xad, 0xbe, 0xef];
    match run.line("0:buf:file,\"src.bin\"") {
        Ok(Outcome::Fetch(s)) => {
            assert_eq!(s.kind, SourceKind::File);
            assert_eq!(s.location, "src.bin");
        }
        _ => panic!("a file statement asks for its contents first"),
    }
    assert!(run.bytes().is_empty());
    assert_eq!(run.vars.get("buf.start"), None);
    assert!(matches!(run.line_with("0:buf:file,\"src.bin\"", source.clone()), Ok(Outcome::Done)));
    assert_eq!(&run.bytes()[0..4], &source[..]);
    assert_eq!(run.vars.get("buf.start"), Some(0));
    assert_eq!(run.vars.get("buf.size"), Some(4));
    assert_eq!(run.vars.get("buf.end"), Some(4));
}

#[test]
fn url_statement_asks_for_the_resource_named_by_a_constant() {
    let mut run = Run::new();
    run.consts.define("SITE".to_string(), "http://example.invalid/fw.bin".to_string());
    match run.line("8:fw:url,SITE") {
        Ok(Outcome::Fetch(s)) => {
            assert_eq!(s.kind, SourceKind::Url);
            assert_eq!(s.location, "http://example.invalid/fw.bin");
        }
        _ => panic!("a url statement asks for its contents first"),
    }
    assert!(matches!(run.line_with("8:fw:url,SITE", vec![1, 2]), Ok(Outcome::Done)));
    assert_eq!(run.bytes(), vec![0, 0, 0, 0, 0, 0, 0, 0, 1, 2]);
    assert_eq!(run.vars.get("fw.end"), Some(10));
}

#[test]
fn second_definition_of_a_name_fails_and_keeps_the_first() {
    let mut run = Run::new();
    assert!(matches!(run.line("0:buf:u16,0x1234"), Ok(Outcome::Done)));
    let before = run.bytes();
    match run.line("8:buf:u8,7") {
        Err(Error::DuplicateDefinition(name)) => assert_eq!(name, "buf"),
        _ => panic!("expected a duplicate definition"),
    }
    assert_eq!(run.bytes(), before);
    assert_eq!(run.vars.get("buf.start"), Some(0));
    assert_eq!(run.vars.get("buf.size"), Some(2));
    assert_eq!(run.vars.get("buf.end"), Some(2));
}

#[test]
fn u32_is_written_little_endian() {
    for n in [0usize, 3, 16] {
        let mut run = Run::new();
        let line = format!("{n}:_:u32,0x01020304");
        assert!(matches!(run.line(&line), Ok(Outcome::Done)));
        assert_eq!(&run.bytes()[n..n + 4], &[0x04, 0x03, 0x02, 0x01]);
        assert_eq!(run.bytes().len(), n + 4);
    }
}

#[test]
fn u8_and_u16_widths() {
    let mut run = Run::new();
    assert!(matches!(run.line("0:a:u8,0xff"), Ok(Outcome::Done)));
    assert!(matches!(run.line("$a.end:b:u16,0xbeef"), Ok(Outcome::Done)));
    assert_eq!(run.bytes(), vec![0xff, 0xef, 0xbe]);
    assert_eq!(run.vars.get("a.size"), Some(1));
    assert_eq!(run.vars.get("b.start"), Some(1));
    assert_eq!(run.vars.get("b.size"), Some(2));
}

#[test]
fn value_too_wide_for_its_width() {
    let mut run = Run::new();
    assert!(matches!(run.line("0:_:u8,256"), Err(Error::ValueTooWide)));
    assert!(matches!(run.line("0:_:u16,0x10000"), Err(Error::ValueTooWide)));
    assert!(matches!(run.line("0:_:u32,0x100000000"), Err(Error::ValueTooWide)));
    assert!(run.bytes().is_empty());
}

#[test]
fn crc16_ibm_sdlc_known_answer() {
    let mut run = Run::new();
    run.image = Image::from_bytes(vec![1, 2, 3, 4]);
    assert!(matches!(run.line("4:crc:crc16,\"ibm_sdlc\",0,4"), Ok(Outcome::Done)));
    assert_eq!(run.bytes(), vec![1, 2, 3, 4, 0x91, 0x39]);
    assert_eq!(run.vars.get("crc.size"), Some(2));
}

#[test]
fn crc16_check_values_backpatched_before_the_data() {
    let mut run = Run::new();
    run.image = Image::from_bytes(b"\0\0\0\0123456789".to_vec());
    assert!(matches!(run.line("0:_:crc16,\"ibm_sdlc\",4,9"), Ok(Outcome::Done)));
    assert!(matches!(run.line("2:_:crc16,\"modbus\",4,9"), Ok(Outcome::Done)));
    assert_eq!(&run.bytes()[0..4], &[0x6e, 0x90, 0x37, 0x4b]);
}

#[test]
fn crc16_modbus_over_recorded_region() {
    let mut run = Run::new();
    assert!(matches!(run.line("0:data:u32,0x04030201"), Ok(Outcome::Done)));
    assert!(matches!(run.line("$data.end:_:crc16,\"modbus\",$data.start,$data.size"), Ok(Outcome::Done)));
    assert_eq!(run.bytes(), vec![1, 2, 3, 4, 0xa1, 0x2b]);
}

#[test]
fn crc16_reads_zero_past_the_end() {
    let mut run = Run::new();
    run.image = Image::from_bytes(vec![1, 2]);
    assert!(matches!(run.line("0:_:crc16,\"modbus\",0,0"), Ok(Outcome::Done)));
    assert_eq!(run.bytes(), vec![0xff, 0xff]);
    let mut other = Run::new();
    other.image = Image::from_bytes(vec![1, 2, 3, 4]);
    assert!(matches!(other.line("8:_:crc16,\"modbus\",2,2"), Ok(Outcome::Done)));
    let mut same = Run::new();
    same.image = Image::from_bytes(vec![3, 4, 0, 0]);
    assert!(matches!(same.line("8:_:crc16,\"modbus\",0,2"), Ok(Outcome::Done)));
    assert_eq!(&other.bytes()[8..10], &same.bytes()[8..10]);
}

#[test]
fn unknown_algorithm_is_named() {
    let mut run = Run::new();
    match run.line("0:_:crc16,\"xmodem\",0,0") {
        Err(Error::UnknownAlgorithm(name)) => assert_eq!(name, "xmodem"),
        _ => panic!("expected an unknown algorithm"),
    }
}

#[test]
fn start_plus_size_equals_end() {
    let mut run = Run::new();
    assert!(matches!(run.line_with("5:a:file,\"x\"", vec![9; 7]), Ok(Outcome::Done)));
    assert!(matches!(run.line("$a.start + $a.size:p:u8,1"), Ok(Outcome::Done)));
    assert!(matches!(run.line("$a.end:q:u8,1"), Ok(Outcome::Done)));
    assert_eq!(run.vars.get("p.start"), Some(12));
    assert_eq!(run.vars.get("q.start"), Some(12));
}

#[test]
fn undefined_variable_is_named_and_changes_nothing() {
    let mut run = Run::new();
    assert!(matches!(run.line("0:a:u8,1"), Ok(Outcome::Done)));
    match run.line("$nope.start:b:u8,2") {
        Err(Error::UndefinedVariable(name)) => assert_eq!(name, "nope.start"),
        _ => panic!("expected an undefined variable"),
    }
    match run.line("0:c:u8,$a.finish") {
        Err(Error::UndefinedVariable(name)) => assert_eq!(name, "a.finish"),
        _ => panic!("expected an undefined variable"),
    }
    assert_eq!(run.bytes(), vec![1]);
    assert_eq!(run.vars.get("b.start"), None);
    assert_eq!(run.vars.get("c.start"), None);
}

#[test]
fn undefined_constant_is_named_and_changes_nothing() {
    let mut run = Run::new();
    match run.line("BASE:b:u8,2") {
        Err(Error::UndefinedConstant(name)) => assert_eq!(name, "BASE"),
        _ => panic!("expected an undefined constant"),
    }
    match run.line("0:b:file,PATH") {
        Err(Error::UndefinedConstant(name)) => assert_eq!(name, "PATH"),
        _ => panic!("expected an undefined constant"),
    }
    assert!(run.bytes().is_empty());
    assert_eq!(run.vars.get("b.start"), None);
}

#[test]
fn numeric_constants() {
    let mut run = Run::new();
    run.consts.define("BASE".to_string(), "16".to_string());
    run.consts.define("BAD".to_string(), "0x10".to_string());
    assert!(matches!(run.line("BASE + 1:v:u8,BASE"), Ok(Outcome::Done)));
    assert_eq!(run.vars.get("v.start"), Some(17));
    assert_eq!(run.bytes()[17], 16);
    match run.line("BAD:w:u8,1") {
        Err(Error::InvalidConstantValue(name)) => assert_eq!(name, "BAD"),
        _ => panic!("expected an invalid constant value"),
    }
}

#[test]
fn later_constant_definition_wins() {
    let mut consts = Constants::new();
    consts.define("N".to_string(), "1".to_string());
    consts.define("N".to_string(), "2".to_string());
    assert_eq!(consts.get("N"), Some("2".to_string()));
    assert_eq!(consts.get("M"), None);
}

#[test]
fn discard_destination_never_records() {
    let mut run = Run::new();
    for _ in 0..3 {
        assert!(matches!(run.line("0:_:u8,5"), Ok(Outcome::Done)));
    }
    assert_eq!(run.vars.get("_.start"), None);
    assert_eq!(run.bytes(), vec![5]);
}

#[test]
fn blank_lines_do_nothing() {
    let mut run = Run::new();
    assert!(matches!(run.line(""), Ok(Outcome::Blank)));
    assert!(matches!(run.line("   # note"), Ok(Outcome::Blank)));
    assert!(run.bytes().is_empty());
}

#[test]
fn statement_errors() {
    let mut run = Run::new();
    match run.line("0:x:u64,1") {
        Err(Error::UnknownFunction(name)) => assert_eq!(name, "u64"),
        _ => panic!("expected an unknown function"),
    }
    assert!(matches!(run.line("0:x:u8"), Err(Error::WrongArgumentCount)));
    assert!(matches!(run.line("0:x:u8,1,2"), Err(Error::WrongArgumentCount)));
    assert!(matches!(run.line("0:x:file"), Err(Error::WrongArgumentCount)));
    assert!(matches!(run.line("0:x:crc16,\"modbus\",0"), Err(Error::WrongArgumentCount)));
    assert!(matches!(run.line("0:x:file,3"), Err(Error::ExpectedStringOrConstant)));
    assert!(matches!(run.line("0:x:u8,\"one\""), Err(Error::InvalidExpression)));
    assert!(matches!(run.line("\"zero\":x:u8,1"), Err(Error::InvalidExpression)));
    assert!(matches!(run.line("1 - 2:x:u8,1"), Err(Error::ArithmeticOverflow)));
    assert!(matches!(
        run.line("18446744073709551615 + 1:x:u8,1"),
        Err(Error::ArithmeticOverflow)
    ));
    assert!(matches!(run.line("18446744073709551615:x:u8,1"), Err(Error::ArithmeticOverflow)));
    assert!(matches!(run.line("0:x:u8,\"unterminated"), Err(Error::UnterminatedString)));
    assert!(run.bytes().is_empty());
}

#[test]
fn subtraction_is_right_grouped_when_evaluated() {
    let mut run = Run::new();
    assert!(matches!(run.line("10 - 4 - 3:x:u8,1"), Ok(Outcome::Done)));
    assert_eq!(run.vars.get("x.start"), Some(9));
}

#[test]
fn constant_names() {
    assert_eq!(valid_const_name("ABC_D").ok(), Some("ABC_D"));
    assert_eq!(valid_const_name("").ok(), Some(""));
    assert!(matches!(valid_const_name("Abc"), Err(Error::InvalidConstantName(n)) if n == "Abc"));
    assert!(matches!(valid_const_name("A1"), Err(Error::InvalidConstantName(_))));
}

#[test]
fn constant_definitions() {
    let (k, v) = parse_consts("PATH=dir/a=b.bin").unwrap();
    assert_eq!(k, "PATH");
    assert_eq!(v, "dir/a=b.bin");
    let (k, v) = parse_consts("EMPTY=").unwrap();
    assert_eq!(k, "EMPTY");
    assert_eq!(v, "");
    assert!(matches!(parse_consts("NOVALUE"), Err(Error::MissingEquals(s)) if s == "NOVALUE"));
    assert!(matches!(parse_consts("lower=1"), Err(Error::InvalidConstantName(n)) if n == "lower"));
}

#[test]
fn decimal_text() {
    assert_eq!(parse_decimal("42"), Some(42));
    assert_eq!(parse_decimal("+42"), Some(42));
    assert_eq!(parse_decimal("18446744073709551615"), Some(usize::MAX));
    assert_eq!(parse_decimal("18446744073709551616"), None);
    assert_eq!(parse_decimal(""), None);
    assert_eq!(parse_decimal("+"), None);
    assert_eq!(parse_decimal("-1"), None);
    assert_eq!(parse_decimal("1a"), None);
}
