//! Identifiers of elements, and the record of those met so far in a document.

use crate::error::{Error, ErrorKind, Flaw};
use crate::glyph::GlifVersion;
use vstd::hash_set::StringHashSet;
use vstd::prelude::*;
use vstd::string::*;

verus! {

/// One character of an identifier: printable, of the ASCII range.
pub open spec fn is_identifier_char(c: char) -> bool {
    ' ' <= c && c <= '~'
}

/// At most 100 characters, each of them printable ASCII.
pub open spec fn fits_identifier(text: Seq<char>) -> bool {
    &&& text.len() <= 100
    &&& forall|i: int| 0 <= i < text.len() ==> is_identifier_char(#[trigger] text[i])
}

/// `text` can serve as an identifier: between 1 and 100 characters, each of
/// them printable ASCII.
pub open spec fn is_identifier(text: Seq<char>) -> bool {
    text.len() > 0 && fits_identifier(text)
}

/// `Identifier::new` of norad, asked only whether it accepts `value`.
///
/// It accepts a text of at most 100 bytes, each of them between `0x20` and
/// `0x7E`. Such a text has one byte per character, so the contract counts
/// characters.
#[verifier::external_body]
fn norad_accepts(value: &str) -> (accepted: bool)
    ensures
        accepted == fits_identifier(value@),
{
    norad::Identifier::new(value).is_ok()
}

/// The identifier of an element: unique in its document.
#[derive(Debug, PartialEq, Eq)]
pub struct Identifier {
    text: String,
}

impl View for Identifier {
    type V = Seq<char>;

    closed spec fn view(&self) -> Seq<char> {
        self.text@
    }
}

impl Identifier {
    #[verifier::type_invariant]
    spec fn well_formed(self) -> bool {
        is_identifier(self.text@)
    }

    /// The identifier that `value` spells, if it can serve as one.
    pub fn new(value: &str) -> (identifier: Option<Identifier>)
        ensures
            identifier is Some <==> is_identifier(value@),
            identifier matches Some(id) ==> id@ == value@,
    {
        if !value.is_empty() && norad_accepts(value) {
            Some(Identifier { text: value.to_owned() })
        } else {
            None
        }
    }

    /// The text of the identifier.
    pub fn as_str(&self) -> (text: &str)
        ensures
            text@ == self@,
            is_identifier(text@),
    {
        proof {
            use_type_invariant(self);
        }
        self.text.as_str()
    }
}

/// The identifiers met so far in one document: a hash set of their texts.
pub struct IdentifierSet {
    seen: StringHashSet,
}

impl View for IdentifierSet {
    type V = Set<Seq<char>>;

    closed spec fn view(&self) -> Set<Seq<char>> {
        self.seen@
    }
}

impl IdentifierSet {
    /// The empty record, as at the start of a document.
    pub fn new() -> (set: IdentifierSet)
        ensures
            set@ == Set::<Seq<char>>::empty(),
    {
        IdentifierSet { seen: StringHashSet::new() }
    }

    /// Whether `value` was met before.
    pub fn contains(&self, value: &str) -> (found: bool)
        ensures
            found == self@.contains(value@),
    {
        self.seen.contains(value)
    }

    /// Records `value`, and says whether it is new.
    pub fn insert(&mut self, value: &str) -> (new: bool)
        ensures
            final(self)@ == old(self)@.insert(value@),
            new == !old(self)@.contains(value@),
    {
        self.seen.insert(value.to_owned())
    }
}

/// Why `text` cannot be taken as the identifier of an element, if it cannot:
/// the first of these that holds. Identifiers are unknown to version 1 of the
/// format; the text must be able to serve as an identifier; and no element
/// before may have had it.
pub open spec fn identifier_flaw(
    text: Seq<char>,
    seen: Set<Seq<char>>,
    version: GlifVersion,
) -> Option<Flaw> {
    if version == GlifVersion::V1 {
        Some(Flaw::UnexpectedAttribute)
    } else if !is_identifier(text) {
        Some(Flaw::BadIdentifier)
    } else if seen.contains(text) {
        Some(Flaw::DuplicateIdentifier)
    } else {
        None
    }
}

/// Takes the value of an `identifier` attribute and records it.
///
/// On success the identifier is the text as it stands, and `identifier_set`
/// has it from now on; on failure `identifier_set` is unchanged.
pub fn parse_identifier(
    value: &str,
    identifier_set: &mut IdentifierSet,
    glif_format: &GlifVersion,
) -> (result: Result<Identifier, Error>)
    ensures
        match result {
            Ok(identifier) => {
                &&& identifier_flaw(value@, old(identifier_set)@, *glif_format) is None
                &&& identifier@ == value@
                &&& final(identifier_set)@ == old(identifier_set)@.insert(value@)
            },
            Err(error) => {
                &&& error.flaw() is Some
                &&& error.flaw() == identifier_flaw(value@, old(identifier_set)@, *glif_format)
                &&& final(identifier_set)@ == old(identifier_set)@
            },
        },
{
    if *glif_format == GlifVersion::V1 {
        return Err(Error::Parse(ErrorKind::UnexpectedAttribute));
    }
    match Identifier::new(value) {
        None => Err(Error::Parse(ErrorKind::BadIdentifier)),
        Some(identifier) => {
            if !identifier_set.insert(value) {
                assert(identifier_set@ =~= old(identifier_set)@);
                return Err(Error::Parse(ErrorKind::DuplicateIdentifier));
            }
            Ok(identifier)
        },
    }
}

} // verus!
