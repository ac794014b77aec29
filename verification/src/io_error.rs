//! Errors of other kinds as I/O errors.

use vstd::prelude::*;
use vstd::string::to_string_from_display_ensures;

verus! {

#[verifier::external_type_specification]
#[verifier::external_body]
pub struct ExIoError(std::io::Error);

/// What an I/O error holds as its text: what it displays as.
pub uninterp spec fn error_text(error: std::io::Error) -> Seq<char>;

/// Whether the kind of an I/O error is `InvalidData`.
pub uninterp spec fn is_invalid_data(error: std::io::Error) -> bool;

/// `std::io::Error::new` with the kind `InvalidData` and a text as the
/// payload. The error then reports that kind, and displays as its payload
/// does, which for a text is the text.
#[verifier::external_body]
fn invalid_data(text: String) -> (error: std::io::Error)
    ensures
        is_invalid_data(error),
        error_text(error) == text@,
{
    std::io::Error::new(std::io::ErrorKind::InvalidData, text)
}

/// An I/O error of the kind `InvalidData` that displays as `err` does.
pub fn to_io_error<E: std::fmt::Display>(err: E) -> (error: std::io::Error)
    ensures
        is_invalid_data(error),
        exists|text: String| #[trigger]
            to_string_from_display_ensures::<E>(&err, text) && error_text(error) == text@,
{
    let text = err.to_string();
    invalid_data(text)
}

} // verus!
