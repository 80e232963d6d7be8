//! An error of any type: any error converts into it, and it shows the text
//! that the error displayed.
use vstd::prelude::*;

verus! {

/// std's `Debug` formatting of `value` (`format!("{:?}", value)`). Its text
/// depends on `T`'s own `Debug` impl, so nothing is claimed of the result.
#[verifier::external_body]
fn debug_text<T: std::fmt::Debug>(value: &T) -> String {
    format!("{:?}", value)
}

/// An error of any type, held as the texts that it displays: its `Display`
/// text and its `Debug` text, both taken when it is wrapped.
#[derive(Debug)]
pub struct ErrRet {
    message: String,
    details: String,
}

/// A result whose error is, by default, an `ErrRet`.
pub type ErrResult<T, E = ErrRet> = Result<T, E>;

impl ErrRet {
    /// The `Display` text of the wrapped error.
    pub closed spec fn display_string(&self) -> String {
        self.message
    }

    /// The `Debug` text of the wrapped error.
    pub closed spec fn debug_string(&self) -> String {
        self.details
    }

    /// Wraps `err`.
    pub fn new<E>(err: E) -> (r: Self)
        where
            E: std::error::Error + Send + Sync + 'static,
        ensures
            vstd::string::to_string_from_display_ensures::<E>(&err, r.display_string()),
    {
        let message = err.to_string();
        ErrRet { message, details: debug_text(&err) }
    }

    /// What the wrapped error displays.
    pub fn message(&self) -> (r: String)
        ensures
            r@ == self.display_string()@,
    {
        self.message.clone()
    }

    /// What the wrapped error shows under `{:?}`.
    pub fn details(&self) -> (r: String)
        ensures
            r@ == self.debug_string()@,
    {
        self.details.clone()
    }
}

impl<E: std::fmt::Display + std::fmt::Debug + Send + Sync + 'static> From<E> for ErrRet {
    /// Wraps `err`, as `?` does on an error of type `E`.
    fn from(err: E) -> (r: Self)
        ensures
            vstd::string::to_string_from_display_ensures::<E>(&err, r.display_string()),
    {
        let message = err.to_string();
        ErrRet { message, details: debug_text(&err) }
    }
}

impl<E: std::fmt::Display + std::fmt::Debug + Send + Sync + 'static> vstd::std_specs::convert::FromSpecImpl<E> for ErrRet {
    open spec fn obeys_from_spec() -> bool {
        false
    }

    open spec fn from_spec(v: E) -> ErrRet {
        arbitrary()
    }
}

} // verus!
