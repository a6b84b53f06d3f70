use vstd::prelude::*;

verus! {

/// Error returned when a section, line or field fails to decode.
///
/// Decoding is all-or-nothing: any scalar parse failure, malformed compound
/// field or unrecognized entity discriminant surfaces as this single error.
#[derive(Debug, Clone, Copy, PartialEq, Eq, Structural)]
pub struct ParseError;

/// A record that can be decoded from the raw lines of one section.
///
/// `parse_from` receives the ordered lines of the section (header excluded)
/// and either produces the whole record or fails; `is_section_id` is the
/// fixed "is this my section" identity check on a header line.
pub trait Parsed: Sized {
    fn parse_from(section: Vec<String>) -> Result<Self, ParseError>;

    fn is_section_id(id: String) -> bool;
}

/// Text that can be parsed as a scalar field of type `T`.
///
/// The one contract is: given text, return `T` or a typed parse failure.
pub trait FieldParser<T> {
    fn parse_field(&self) -> Result<T, ParseError>;
}

} // verus!
