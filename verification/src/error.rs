//! The errors of the queries.
use kdtree::ErrorKind;
use polars::prelude::PolarsError;
use vstd::prelude::*;

verus! {

/// The reasons for which a search of the `kdtree` crate fails. Its three
/// variants are public and carry nothing, so Verus reads them.
#[verifier::external_type_specification]
pub struct ExErrorKind(ErrorKind);

/// The error type of the `polars` crate, carried through unread.
#[verifier::external_type_specification]
#[verifier::external_body]
pub struct ExPolarsError(PolarsError);

/// Why a query fails.
#[derive(Debug)]
pub enum KnnError {
    /// The query cannot be computed, for the reason given.
    Compute(String),
    /// An identifier is missing, with the message for it.
    NullId(String),
    /// The lengths of the inputs do not go together.
    ShapeMismatch(String),
    /// A column has another type than the query needs.
    Polars(PolarsError),
}

/// What `kdtree` prints for each of its errors.
pub open spec fn error_text(e: ErrorKind) -> Seq<char> {
    match e {
        ErrorKind::WrongDimension => "wrong dimension"@,
        ErrorKind::NonFiniteCoordinate => "non-finite coordinate"@,
        ErrorKind::ZeroCapacity => "zero capacity"@,
    }
}

/// `to_string` of `kdtree::ErrorKind`: the text that its `Display` writes,
/// one fixed phrase for each variant.
#[verifier::external_body]
fn print_error(e: &ErrorKind) -> (text: String)
    ensures
        text@ == error_text(*e),
{
    e.to_string()
}

/// The error that a failed search becomes: the text of its reason behind the
/// prefix of this library.
pub fn search_failed(e: &ErrorKind) -> (err: KnnError)
    ensures
        err matches KnnError::Compute(message) && message@ == "KNN: "@ + error_text(*e),
{
    let text = print_error(e);
    let mut message = "KNN: ".to_string();
    message.append(text.as_str());
    KnnError::Compute(message)
}

} // verus!
