//! The property dictionary of a glyph: the `lib` element.
//!
//! What stands between the tags is a property list. Parsing it is the work
//! of the plist crate, which gets the bytes of the document as they stand.

use crate::error::{Error, ErrorKind, Flaw, PlistError};
use vstd::prelude::*;
use vstd::slice::*;

verus! {

/// `plist::Value`, carried through unopened.
#[verifier::external_type_specification]
#[verifier::external_body]
pub struct ExValue(plist::Value);

/// What the plist crate makes of `bytes` read as XML: the property list, or
/// the error that it reports.
pub uninterp spec fn plist_document(bytes: Seq<u8>) -> Result<plist::Value, PlistError>;

/// The dictionary that `value` is, if it is one.
pub uninterp spec fn dictionary_of(value: plist::Value) -> Option<plist::Dictionary>;

/// `Value::from_reader_xml` of the plist crate, on bytes in memory. The
/// property list, or else the error, depends on nothing but the bytes.
///
/// The parser returns on every input but for two things. It turns each date
/// to UTC with a call of the `time` crate that panics where the year leaves
/// the years that `time` supports; this crate is built with the
/// `large-dates` feature of `time`, under which every date that the parser
/// accepts, four digits of a year and an offset of less than a day, stays in
/// that range. And it goes one call deeper for each level of nesting in the
/// list, so that the stack bounds how deep a list can be.
#[verifier::external_body]
fn read_plist(bytes: &[u8]) -> (result: Result<plist::Value, PlistError>)
    ensures
        result == plist_document(bytes@),
{
    plist::Value::from_reader_xml(bytes).map_err(PlistError)
}

/// `Value::into_dictionary` of the plist crate.
#[verifier::external_body]
fn into_dictionary(value: plist::Value) -> (dictionary: Option<plist::Dictionary>)
    ensures
        dictionary == dictionary_of(value),
{
    value.into_dictionary()
}

/// The dictionary that the bytes of `xml` from `start` up to `end` hold, or
/// the rule that they break: the span must lie in the document, the bytes
/// must be a property list, and the list must be a dictionary. Where the
/// bytes are no property list, the failure carries what the parser reported.
pub open spec fn lib_of(xml: Seq<u8>, start: int, end: int) -> Result<plist::Dictionary, Flaw> {
    if !(0 <= start <= end <= xml.len()) {
        Err(Flaw::UnexpectedEof)
    } else {
        match plist_document(xml.subrange(start, end)) {
            Err(cause) => Err(Flaw::ParsePlist(cause)),
            Ok(value) => match dictionary_of(value) {
                None => Err(Flaw::LibMustBeDictionary),
                Some(dictionary) => Ok(dictionary),
            },
        }
    }
}

/// Reads the property dictionary that spans the bytes of `xml` from `start`
/// up to `end`.
///
/// The parser gets exactly these bytes of the document: what it makes of the
/// span is what it makes of the same bytes on their own.
pub fn lib_from_span(xml: &[u8], start: usize, end: usize) -> (result: Result<
    plist::Dictionary,
    Error,
>)
    ensures
        match lib_of(xml@, start as int, end as int) {
            Ok(dictionary) => result == Ok::<plist::Dictionary, Error>(dictionary),
            Err(flaw) => result matches Err(error) && error.is_flaw(flaw),
        },
{
    if start > end || end > xml.len() {
        return Err(Error::Parse(ErrorKind::UnexpectedEof));
    }
    match read_plist(slice_subrange(xml, start, end)) {
        Err(cause) => Err(Error::Parse(ErrorKind::ParsePlist(cause))),
        Ok(value) => match into_dictionary(value) {
            Some(dictionary) => Ok(dictionary),
            None => Err(Error::Parse(ErrorKind::LibMustBeDictionary)),
        },
    }
}

} // verus!
