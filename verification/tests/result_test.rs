use erret::{ErrResult, ErrRet};
use std::fmt;

#[derive(Debug)]
struct CustomError(String);

impl fmt::Display for CustomError {
    fn fmt(&self, f: &mut fmt::Formatter<'_>) -> fmt::Result {
        f.write_str(&format!("custom error: {}", self.0))
    }
}

impl std::error::Error for CustomError {}

fn parse_number(s: &str) -> ErrResult<u32> {
    let num = s.parse::<u32>()?;
    Ok(num)
}

#[test]
fn question_mark_converts_custom_error() {
    fn fail() -> Result<(), ErrRet> {
        fn inner() -> std::result::Result<(), CustomError> {
            Err(CustomError("boom".into()))
        }
        inner()?;
        Ok(())
    }

    let err = fail().unwrap_err();
    assert_eq!(err.message(), "custom error: boom");
}

#[test]
fn question_mark_short_circuits_on_ok() {
    fn ok_path() -> Result<i32, ErrRet> {
        fn inner() -> std::result::Result<i32, CustomError> {
            Ok(42)
        }
        let v = inner()?;
        Ok(v)
    }

    assert_eq!(ok_path().unwrap(), 42);
}

#[test]
fn new_keeps_display_and_debug_text() {
    let err = ErrRet::new(CustomError("x".to_string()));
    assert_eq!(err.message(), "custom error: x");
    assert_eq!(err.details(), "CustomError(\"x\")");
}

#[test]
fn parse_error_converts_through_question_mark() {
    let err = parse_number("nope").unwrap_err();
    assert_eq!(err.message(), "invalid digit found in string");
    assert_eq!(parse_number("17").unwrap(), 17);
}
