use erret::{error, format_message, parse_enum, Delimiter, Enum, Group, TokenTree};
use std::fmt;
use std::io::{Error as IoError, ErrorKind};
use std::num::ParseIntError;

fn ident(s: &str) -> TokenTree {
    TokenTree::Ident(s.to_string())
}

fn punct(c: char) -> TokenTree {
    TokenTree::Punct(c)
}

fn lit(s: &str) -> TokenTree {
    TokenTree::Literal(s.to_string())
}

fn group(delimiter: Delimiter, stream: Vec<TokenTree>, stream_text: &str) -> TokenTree {
    let (open, close) = match delimiter {
        Delimiter::Parenthesis => ("(", ")"),
        Delimiter::Brace => ("{ ", " }"),
        Delimiter::Bracket => ("[", "]"),
        Delimiter::Invisible => ("", ""),
    };
    TokenTree::Group(Group {
        delimiter,
        stream,
        stream_text: stream_text.to_string(),
        text: format!("{}{}{}", open, stream_text, close),
    })
}

/// `#[error("<message>")]`
fn error_attr(message: &str) -> Vec<TokenTree> {
    let literal = format!("\"{}\"", message);
    vec![
        punct('#'),
        group(
            Delimiter::Bracket,
            vec![ident("error"), group(Delimiter::Parenthesis, vec![lit(&literal)], &literal)],
            &format!("error({})", literal),
        ),
    ]
}

/// `#[from]`
fn from_attr() -> Vec<TokenTree> {
    vec![punct('#'), group(Delimiter::Bracket, vec![ident("from")], "from")]
}

fn tuple(types: Vec<TokenTree>, text: &str) -> TokenTree {
    group(Delimiter::Parenthesis, types, text)
}

/// The derive input of `TestError`, as the compiler hands it over.
fn test_error_tokens() -> Vec<TokenTree> {
    let mut body = vec![ident("Zalupa"), punct(',')];
    body.extend(error_attr("Empty err"));
    body.extend(vec![ident("Empty"), punct(',')]);
    body.extend(error_attr("Iface '{}' not found"));
    body.extend(vec![
        ident("InvalidIface"),
        tuple(vec![punct('&'), punct('\''), ident("static"), ident("str")], "& 'static str"),
        punct(','),
    ]);
    body.extend(error_attr("Bad port: {}"));
    body.extend(vec![ident("BadPort"), tuple(vec![ident("u16")], "u16"), punct(',')]);
    body.extend(error_attr("Disk err: {}"));
    body.extend(from_attr());
    body.extend(vec![ident("Io"), tuple(vec![ident("IoError")], "IoError"), punct(',')]);
    body.extend(error_attr("Bad IP: {}"));
    body.extend(from_attr());
    body.extend(vec![
        ident("BadIp"),
        tuple(vec![ident("ParseIntError")], "ParseIntError"),
        punct(','),
    ]);
    body.extend(error_attr("Zaebal, suka, blyat: {}"));
    body.extend(vec![ident("ZaebalIo"), tuple(vec![ident("IoError")], "IoError"), punct(',')]);
    vec![ident("pub"), ident("enum"), ident("TestError"), group(Delimiter::Brace, body, "...")]
}

fn test_error_decl() -> Enum {
    parse_enum(&test_error_tokens())
}

#[derive(Debug)]
pub enum TestError {
    Zalupa,
    Empty,
    InvalidIface(&'static str),
    BadPort(u16),
    Io(IoError),
    BadIp(ParseIntError),
    ZaebalIo(IoError),
}

/// The `Display` that the derive gives `TestError`: each variant writes the
/// template the parser read for it, filled with its fields.
impl fmt::Display for TestError {
    fn fmt(&self, f: &mut fmt::Formatter<'_>) -> fmt::Result {
        let (name, args): (&str, Vec<String>) = match self {
            TestError::Zalupa => ("Zalupa", vec![]),
            TestError::Empty => ("Empty", vec![]),
            TestError::InvalidIface(s) => ("InvalidIface", vec![s.to_string()]),
            TestError::BadPort(p) => ("BadPort", vec![p.to_string()]),
            TestError::Io(e) => ("Io", vec![e.to_string()]),
            TestError::BadIp(e) => ("BadIp", vec![e.to_string()]),
            TestError::ZaebalIo(e) => ("ZaebalIo", vec![e.to_string()]),
        };
        let decl = test_error_decl();
        let var = decl.vars.iter().find(|v| v.name == name).unwrap();
        f.write_str(&format_message(&var.message(), &args).unwrap())
    }
}

impl std::error::Error for TestError {}

/// The `From` impls that the derive gives `TestError` (see
/// `derive_writes_from_impls_of_marked_variants`).
impl From<IoError> for TestError {
    fn from(err: IoError) -> Self {
        TestError::Io(err)
    }
}

impl From<ParseIntError> for TestError {
    fn from(err: ParseIntError) -> Self {
        TestError::BadIp(err)
    }
}

type Result<T> = std::result::Result<T, TestError>;

#[test]
fn test_display_formatting() {
    let err_zalupa = TestError::Zalupa;
    assert_eq!(err_zalupa.to_string(), "Zalupa");

    let err_empty = TestError::Empty;
    assert_eq!(err_empty.to_string(), "Empty err");

    let err_port = TestError::BadPort(80);
    assert_eq!(err_port.to_string(), "Bad port: 80");

    let err_iface = TestError::InvalidIface("eth0");
    assert_eq!(err_iface.to_string(), "Iface 'eth0' not found");

    let io_sys = IoError::new(ErrorKind::PermissionDenied, "access denied");
    let err_io = TestError::Io(io_sys);
    assert_eq!(err_io.to_string(), "Disk err: access denied");

    let zaebal_sys = IoError::new(ErrorKind::PermissionDenied, "access denied");
    let err_zaebalio = TestError::ZaebalIo(zaebal_sys);
    assert_eq!(err_zaebalio.to_string(), "Zaebal, suka, blyat: access denied");
}

fn cause_io_error() -> std::result::Result<(), IoError> {
    Err(IoError::new(ErrorKind::NotFound, "file not found"))
}

fn cause_ip_error() -> std::result::Result<(), ParseIntError> {
    "256".parse::<u8>().map(|_| ())
}

fn low_level_logic(trigger: u8) -> Result<()> {
    if trigger == 1 {
        cause_io_error()?;
    } else if trigger == 2 {
        cause_ip_error()?;
    }
    Ok(())
}

#[test]
fn test_question_mark_operator() {
    let res_io = low_level_logic(1);
    assert!(res_io.is_err());
    match res_io.unwrap_err() {
        TestError::Io(e) => assert_eq!(e.kind(), ErrorKind::NotFound),
        _ => panic!("Expected TestError::Io"),
    }

    let res_ip = low_level_logic(2);
    assert!(res_ip.is_err());
    assert!(matches!(res_ip.unwrap_err(), TestError::BadIp(_)));
}

fn high_level_workflow() -> anyhow::Result<()> {
    low_level_logic(1)?;
    Ok(())
}

#[test]
fn test_anyhow_compatibility() {
    let res = high_level_workflow();
    assert!(res.is_err());

    let anyhow_err = res.unwrap_err();
    assert_eq!(anyhow_err.to_string(), "Disk err: file not found");
}

#[test]
fn test_zero_cost_size() {
    let size = std::mem::size_of::<TestError>();
    println!("Stack size: {} byte", size);
    assert!(size <= 24, "Err too large");
}

#[test]
fn derive_reads_every_variant_of_test_error() {
    let decl = test_error_decl();
    assert!(decl.is_pub);
    assert_eq!(decl.name, "TestError");
    let names: Vec<&str> = decl.vars.iter().map(|v| v.name.as_str()).collect();
    assert_eq!(
        names,
        vec!["Zalupa", "Empty", "InvalidIface", "BadPort", "Io", "BadIp", "ZaebalIo"]
    );
    assert_eq!(decl.vars[0].error_arg, None);
    assert_eq!(decl.vars[1].error_arg.as_deref(), Some("Empty err"));
    assert_eq!(decl.vars[2].fields.len(), 1);
    assert_eq!(decl.vars[2].fields[0].ty, "& 'static str");
    assert!(!decl.vars[3].fields[0].has_from);
    assert!(decl.vars[4].fields[0].has_from);
    assert!(decl.vars[5].fields[0].has_from);
    assert!(!decl.vars[6].fields[0].has_from);
}

#[test]
fn derive_writes_from_impls_of_marked_variants() {
    let code = error(test_error_tokens());
    let io_impl = "impl std::convert::From<IoError> for TestError {\n                            fn from(err: IoError) -> Self {\n                                TestError::Io(err)\n                            }\n                        }\n";
    let ip_impl = "impl std::convert::From<ParseIntError> for TestError {\n                            fn from(err: ParseIntError) -> Self {\n                                TestError::BadIp(err)\n                            }\n                        }\n";
    assert!(code.contains(io_impl));
    assert!(code.contains(ip_impl));
    assert_eq!(code.matches("impl std::convert::From<").count(), 2);
    assert!(code.contains("impl std::error::Error for TestError {}"));
    assert!(code.contains("TestError::BadPort ( _v0,  ) => write!(f, \"Bad port: {}\" , _v0),\n"));
    assert!(code.contains("TestError::Zalupa => write!(f, \"Zalupa\"),\n"));
}

#[test]
fn derive_writes_exact_impls_of_test_error() {
    let code = error(test_error_tokens());
    let arms = [
        "TestError::Zalupa => write!(f, \"Zalupa\"),\n",
        "TestError::Empty => write!(f, \"Empty err\"),\n",
        "TestError::InvalidIface ( _v0,  ) => write!(f, \"Iface '{}' not found\" , _v0),\n",
        "TestError::BadPort ( _v0,  ) => write!(f, \"Bad port: {}\" , _v0),\n",
        "TestError::Io ( _v0,  ) => write!(f, \"Disk err: {}\" , _v0),\n",
        "TestError::BadIp ( _v0,  ) => write!(f, \"Bad IP: {}\" , _v0),\n",
        "TestError::ZaebalIo ( _v0,  ) => write!(f, \"Zaebal, suka, blyat: {}\" , _v0),\n",
    ]
    .concat();
    let s24 = " ".repeat(24);
    let s28 = " ".repeat(28);
    let s32 = " ".repeat(32);
    let from = |ty: &str, var: &str| {
        format!(
            "impl std::convert::From<{ty}> for TestError {{\n{s28}fn from(err: {ty}) -> Self {{\n{s32}TestError::{var}(err)\n{s28}}}\n{s24}}}\n"
        )
    };
    let froms = from("IoError", "Io") + &from("ParseIntError", "BadIp");
    let expected = format!(
        "\n        impl std::fmt::Display for TestError {{\n            fn fmt(&self, f: &mut std::fmt::Formatter<'_>) -> std::fmt::Result {{\n                match self {{\n                    {arms}\n                }}\n            }}\n        }}\n        impl std::error::Error for TestError {{}}\n        {froms}\n        "
    );
    assert_eq!(code, expected);
}
