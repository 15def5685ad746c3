//! The ways in which reading a glyph description can fail.

use vstd::prelude::*;

verus! {

/// `std::num::ParseIntError`, carried through unopened.
#[verifier::external_type_specification]
#[verifier::external_body]
pub struct ExParseIntError(std::num::ParseIntError);

/// `std::char::CharTryFromError`, carried through unopened.
#[verifier::external_type_specification]
#[verifier::external_body]
pub struct ExCharTryFromError(std::char::CharTryFromError);

/// What the XML tokenizer reported: an error of quick-xml, carried through
/// unopened.
#[verifier::external_body]
#[derive(Debug)]
pub struct XmlError(pub quick_xml::Error);

/// What the property-list parser reported: an error of the plist crate,
/// carried through unopened.
#[verifier::external_body]
#[derive(Debug)]
pub struct PlistError(pub plist::Error);

/// Why a `hex` attribute does not name a character.
#[derive(Debug)]
pub enum CodepointCause {
    /// The text is no hexadecimal number that fits 32 bits.
    NotHexadecimal(std::num::ParseIntError),
    /// The number is no Unicode scalar value.
    NotScalar(std::char::CharTryFromError),
}

/// A failure of the parse: either the document is not well-formed XML, or it
/// is XML that does not describe a glyph.
#[derive(Debug)]
#[non_exhaustive]
pub enum Error {
    /// The tokenizer rejected the document.
    Xml(XmlError),
    /// The document breaks a rule of the glyph format.
    Parse(ErrorKind),
}

/// The rule of the glyph format that a document breaks.
#[derive(Debug)]
pub enum ErrorKind {
    BadIdentifier,
    DuplicateElement,
    DuplicateIdentifier,
    InvalidAnchor,
    InvalidAngle,
    /// The offending text, and why it names no character.
    InvalidCodepoint(String, CodepointCause),
    InvalidColor,
    InvalidGlyph,
    InvalidGuideline,
    InvalidImage,
    /// The offending text, and why it is no unsigned integer.
    InvalidInteger(String, std::num::ParseIntError),
    /// The offending text.
    InvalidNumber(String),
    InvalidUnicode,
    LibMustBeDictionary,
    /// What the property-list parser reported.
    ParsePlist(PlistError),
    TrailingData,
    UnexpectedAttribute,
    UnexpectedEof,
    UnsupportedGlifVersion,
    WrongFirstElement,
}

/// An [`ErrorKind`] as contracts see it: the rule, the offending text where
/// there is one, and what the parser of the text reported as the cause.
pub enum Flaw {
    BadIdentifier,
    DuplicateElement,
    DuplicateIdentifier,
    InvalidAnchor,
    InvalidAngle,
    InvalidCodepoint(Seq<char>, CodepointCause),
    InvalidColor,
    InvalidGlyph,
    InvalidGuideline,
    InvalidImage,
    InvalidInteger(Seq<char>, std::num::ParseIntError),
    InvalidNumber(Seq<char>),
    InvalidUnicode,
    LibMustBeDictionary,
    ParsePlist(PlistError),
    TrailingData,
    UnexpectedAttribute,
    UnexpectedEof,
    UnsupportedGlifVersion,
    WrongFirstElement,
}

impl View for ErrorKind {
    type V = Flaw;

    open spec fn view(&self) -> Flaw {
        match *self {
            ErrorKind::BadIdentifier => Flaw::BadIdentifier,
            ErrorKind::DuplicateElement => Flaw::DuplicateElement,
            ErrorKind::DuplicateIdentifier => Flaw::DuplicateIdentifier,
            ErrorKind::InvalidAnchor => Flaw::InvalidAnchor,
            ErrorKind::InvalidAngle => Flaw::InvalidAngle,
            ErrorKind::InvalidCodepoint(text, cause) => Flaw::InvalidCodepoint(text@, cause),
            ErrorKind::InvalidColor => Flaw::InvalidColor,
            ErrorKind::InvalidGlyph => Flaw::InvalidGlyph,
            ErrorKind::InvalidGuideline => Flaw::InvalidGuideline,
            ErrorKind::InvalidImage => Flaw::InvalidImage,
            ErrorKind::InvalidInteger(text, cause) => Flaw::InvalidInteger(text@, cause),
            ErrorKind::InvalidNumber(text) => Flaw::InvalidNumber(text@),
            ErrorKind::InvalidUnicode => Flaw::InvalidUnicode,
            ErrorKind::LibMustBeDictionary => Flaw::LibMustBeDictionary,
            ErrorKind::ParsePlist(cause) => Flaw::ParsePlist(cause),
            ErrorKind::TrailingData => Flaw::TrailingData,
            ErrorKind::UnexpectedAttribute => Flaw::UnexpectedAttribute,
            ErrorKind::UnexpectedEof => Flaw::UnexpectedEof,
            ErrorKind::UnsupportedGlifVersion => Flaw::UnsupportedGlifVersion,
            ErrorKind::WrongFirstElement => Flaw::WrongFirstElement,
        }
    }
}

/// An [`Error`] as contracts see it.
pub enum Failure {
    /// The tokenizer rejected the document, with this error.
    Xml(XmlError),
    /// The document breaks this rule of the glyph format.
    Broken(Flaw),
}

impl View for Error {
    type V = Failure;

    open spec fn view(&self) -> Failure {
        match *self {
            Error::Xml(error) => Failure::Xml(error),
            Error::Parse(kind) => Failure::Broken(kind@),
        }
    }
}

impl Error {
    /// The broken rule, if the failure is one of the glyph format.
    pub open spec fn flaw(&self) -> Option<Flaw> {
        match *self {
            Error::Xml(_) => None,
            Error::Parse(kind) => Some(kind@),
        }
    }

    /// This failure is `flaw`, a broken rule of the glyph format.
    pub open spec fn is_flaw(&self, flaw: Flaw) -> bool {
        self.flaw() == Some(flaw)
    }
}

} // verus!
