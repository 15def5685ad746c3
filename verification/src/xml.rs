//! The XML tokenizer, as far as the glyph reader needs it.
//!
//! Tokenizing is the work of quick-xml. This module holds its reader, turns
//! what it gives into plain values, and names elements and attributes.
//!
//! Nothing is proved of quick-xml. What it gives is taken as a function of
//! what it is given, and each such function has a name here, so that the
//! contracts of the parse can say on what its outcome depends.

use crate::error::XmlError;
use quick_xml::events::attributes::Attributes;
use quick_xml::events::Event;
use vstd::prelude::*;
use vstd::slice::*;
use vstd::string::*;

verus! {

/// A tokenizer over one document in memory. Text between tags comes trimmed,
/// and text of white space alone does not come at all.
#[verifier::external_body]
pub struct XmlReader<'a> {
    inner: quick_xml::Reader<&'a [u8]>,
}

/// The tokenizer at the start of the document `xml`.
pub uninterp spec fn opened(xml: Seq<u8>) -> XmlReader<'static>;

/// How many events `reader` has yet to give before it comes to the end of
/// its input or to its first error.
pub uninterp spec fn events_left(reader: XmlReader<'_>) -> nat;

/// What `reader` gives next, and the reader that is left.
pub uninterp spec fn event_read(reader: XmlReader<'_>) -> (Result<XmlEvent, XmlError>, XmlReader<'_>);

/// The text that `reader` finds up to the closing tag named `end`, and the
/// reader that is left.
pub uninterp spec fn text_read(reader: XmlReader<'_>, end: Seq<char>) -> (
    Result<String, XmlError>,
    XmlReader<'_>,
);

/// Whether `reader` finds the closing tag named `end`, and the reader that
/// is left after it.
pub uninterp spec fn skipped_to_end(reader: XmlReader<'_>, end: Seq<char>) -> (
    Result<(), XmlError>,
    XmlReader<'_>,
);

/// How many bytes of the document `reader` has read.
pub uninterp spec fn position_of(reader: XmlReader<'_>) -> usize;

/// How many items the attributes of a tag come to, the tag given by its
/// content and the length of its name: its attributes up to the first that
/// is malformed, that one included.
pub uninterp spec fn attributes_in(content: Seq<u8>, name_len: nat) -> nat;

/// The item at `index` among the attributes of a tag, the value unescaped
/// and decoded by `reader`.
pub uninterp spec fn attribute_read(
    content: Seq<u8>,
    name_len: nat,
    index: nat,
    reader: XmlReader<'_>,
) -> Option<Result<Attribute, XmlError>>;

/// An opening or self-closing tag: its name, and its whole content from the
/// name on.
#[derive(Debug)]
pub struct Element {
    pub name: Vec<u8>,
    pub content: Vec<u8>,
}

/// What the tokenizer found next in the document.
#[derive(Debug)]
pub enum XmlEvent {
    /// An opening tag.
    Start(Element),
    /// A self-closing tag.
    Empty(Element),
    /// A closing tag, with its name.
    End(Vec<u8>),
    Comment,
    /// The XML declaration.
    Decl,
    /// The end of the document.
    Eof,
    /// Text, character data, a processing instruction or a document type.
    Other,
}

/// An attribute of a tag, its value unescaped and decoded.
#[derive(Debug)]
pub struct Attribute {
    pub key: Vec<u8>,
    pub value: String,
}

/// An [`Attribute`] as contracts see it.
pub struct AttributeView {
    pub key: Seq<u8>,
    pub value: Seq<char>,
}

impl View for Attribute {
    type V = AttributeView;

    open spec fn view(&self) -> AttributeView {
        AttributeView { key: self.key@, value: self.value@ }
    }
}

/// The attributes of a tag in their order, as far as the tokenizer could
/// read them, and the error that stopped it, if one did.
#[derive(Debug)]
pub struct AttributeList {
    pub items: Vec<Attribute>,
    pub failure: Option<XmlError>,
}

impl AttributeList {
    /// The attributes that were read.
    pub open spec fn entries(&self) -> Seq<AttributeView> {
        self.items@.map_values(|attribute: Attribute| attribute@)
    }
}

/// `Reader::from_reader` of quick-xml on a byte slice, with `trim_text(true)`.
/// The reader depends on nothing but the bytes.
#[verifier::external_body]
pub(crate) fn open_reader<'a>(xml: &'a [u8]) -> (reader: XmlReader<'a>)
    ensures
        reader == opened(xml@),
{
    let mut inner = quick_xml::Reader::from_reader(xml);
    inner.trim_text(true);
    XmlReader { inner }
}

/// `Reader::read_event` of quick-xml, its event turned into plain values.
///
/// The event and the state that the reader is left in depend on nothing but
/// the state that the reader was in. An event other than the end of the
/// document is one of those that were left to give.
#[verifier::external_body]
pub(crate) fn next_event(reader: &mut XmlReader<'_>) -> (result: Result<XmlEvent, XmlError>)
    ensures
        (result, *final(reader)) == event_read(*old(reader)),
        result matches Ok(event) && !(event is Eof) ==> events_left(*final(reader)) < events_left(
            *old(reader),
        ),
{
    let mut buffer = Vec::new();
    Ok(match reader.inner.read_event(&mut buffer).map_err(XmlError)? {
        Event::Start(tag) => XmlEvent::Start(Element { name: tag.name().to_vec(), content: tag.to_vec() }),
        Event::Empty(tag) => XmlEvent::Empty(Element { name: tag.name().to_vec(), content: tag.to_vec() }),
        Event::End(tag) => XmlEvent::End(tag.name().to_vec()),
        Event::Comment(_) => XmlEvent::Comment,
        Event::Decl(_) => XmlEvent::Decl,
        Event::Eof => XmlEvent::Eof,
        Event::Text(_) | Event::CData(_) | Event::PI(_) | Event::DocType(_) => XmlEvent::Other,
    })
}

/// `Reader::read_text` of quick-xml: the text up to the closing tag named
/// `end`.
///
/// The text and the state that the reader is left in depend on nothing but
/// the state that the reader was in and the name. The call reads events and
/// gives none back.
#[verifier::external_body]
pub(crate) fn read_text(reader: &mut XmlReader<'_>, end: &str) -> (result: Result<String, XmlError>)
    ensures
        (result, *final(reader)) == text_read(*old(reader), end@),
        events_left(*final(reader)) <= events_left(*old(reader)),
{
    reader.inner.read_text(end, &mut Vec::new()).map_err(XmlError)
}

/// `Reader::read_to_end` of quick-xml: skips to the closing tag named `end`.
///
/// Whether the tag is found and the state that the reader is left in depend
/// on nothing but the state that the reader was in and the name. The call
/// reads events and gives none back.
#[verifier::external_body]
pub(crate) fn read_to_end(reader: &mut XmlReader<'_>, end: &str) -> (result: Result<(), XmlError>)
    ensures
        (result, *final(reader)) == skipped_to_end(*old(reader), end@),
        events_left(*final(reader)) <= events_left(*old(reader)),
{
    reader.inner.read_to_end(end, &mut Vec::new()).map_err(XmlError)
}

/// `Reader::buffer_position` of quick-xml: how many bytes of the document
/// have been read.
#[verifier::external_body]
pub(crate) fn position(reader: &XmlReader<'_>) -> (offset: usize)
    ensures
        offset == position_of(*reader),
{
    reader.inner.buffer_position()
}

/// The item at `index` among the attributes that quick-xml finds in a tag
/// (`Attributes::new` on the content of the tag, after its name), with the
/// value of an attribute first unescaped (`Attribute::unescaped_value`) and
/// then decoded (`Reader::decode`), or the error of the first of the three
/// steps to fail.
///
/// The items of a tag are numbered from 0 without a gap, so that there is an
/// item exactly at the indices below their number.
#[verifier::external_body]
pub(crate) fn attribute_at(element: &Element, index: usize, reader: &XmlReader<'_>) -> (item: Option<
    Result<Attribute, XmlError>,
>)
    ensures
        item == attribute_read(element.content@, element.name@.len(), index as nat, *reader),
        item is Some <==> index < attributes_in(element.content@, element.name@.len()),
{
    let attribute = match Attributes::new(&element.content, element.name.len()).nth(index)? {
        Ok(attribute) => attribute,
        Err(error) => return Some(Err(XmlError(error))),
    };
    let value = match attribute.unescaped_value() {
        Ok(value) => value,
        Err(error) => return Some(Err(XmlError(error))),
    };
    match reader.inner.decode(&value) {
        Ok(text) => Some(Ok(Attribute { key: attribute.key.to_vec(), value: text.to_string() })),
        Err(error) => Some(Err(XmlError(error))),
    }
}

/// The item at `index` among the attributes of a tag is an attribute.
pub open spec fn is_attribute_at(
    content: Seq<u8>,
    name_len: nat,
    index: nat,
    reader: XmlReader<'_>,
) -> bool {
    index < attributes_in(content, name_len) && attribute_read(content, name_len, index, reader)
        matches Some(Ok(_))
}

/// The index of the first item at or after `index` that is no attribute:
/// the error of the tokenizer, or the end of the tag.
pub open spec fn attributes_end(
    content: Seq<u8>,
    name_len: nat,
    index: nat,
    reader: XmlReader<'_>,
) -> nat
    decreases attributes_in(content, name_len) - index,
{
    if is_attribute_at(content, name_len, index, reader) {
        attributes_end(content, name_len, index + 1, reader)
    } else {
        index
    }
}

/// The attributes of a tag in their order, up to the first that the
/// tokenizer rejects.
pub open spec fn entries_of(content: Seq<u8>, name_len: nat, reader: XmlReader<'_>) -> Seq<
    AttributeView,
> {
    Seq::new(
        attributes_end(content, name_len, 0, reader),
        |i: int| attribute_read(content, name_len, i as nat, reader)->Some_0->Ok_0@,
    )
}

/// The error of the tokenizer that ends the attributes of a tag, if one does.
pub open spec fn failure_of(content: Seq<u8>, name_len: nat, reader: XmlReader<'_>) -> Option<
    XmlError,
> {
    match attribute_read(content, name_len, attributes_end(content, name_len, 0, reader), reader) {
        Some(Err(error)) => Some(error),
        _ => None,
    }
}

/// Reads the attributes of a tag, up to the first that the tokenizer rejects.
pub(crate) fn read_attributes(element: &Element, reader: &XmlReader<'_>) -> (list: AttributeList)
    ensures
        list.entries() == entries_of(element.content@, element.name@.len(), *reader),
        list.failure == failure_of(element.content@, element.name@.len(), *reader),
{
    let ghost content = element.content@;
    let ghost name_len = element.name@.len();
    let mut items: Vec<Attribute> = Vec::new();
    let mut index: usize = 0;
    loop
        invariant
            content == element.content@,
            name_len == element.name@.len(),
            index == items@.len(),
            attributes_end(content, name_len, 0, *reader) == attributes_end(
                content,
                name_len,
                index as nat,
                *reader,
            ),
            forall|i: int|
                0 <= i < index ==> attribute_read(content, name_len, i as nat, *reader) == Some(
                    Ok::<Attribute, XmlError>(#[trigger] items@[i]),
                ),
        decreases attributes_in(content, name_len) - index,
    {
        let item = attribute_at(element, index, reader);
        let failure = match item {
            Some(Ok(attribute)) => {
                items.push(attribute);
                index = items.len();
                continue ;
            },
            Some(Err(error)) => Some(error),
            None => None,
        };
        let list = AttributeList { items, failure };
        proof {
            assert(list.entries() =~= entries_of(content, name_len, *reader));
        }
        return list;
    }
}

/// Whether two rows of bytes are the same.
pub fn same_bytes(left: &[u8], right: &[u8]) -> (same: bool)
    ensures
        same == (left@ == right@),
{
    if left.len() != right.len() {
        return false;
    }
    let mut i: usize = 0;
    while i < left.len()
        invariant
            i <= left@.len(),
            left@.len() == right@.len(),
            forall|j: int| 0 <= j < i ==> left@[j] == right@[j],
        decreases left@.len() - i,
    {
        if left[i] != right[i] {
            return false;
        }
        i += 1;
    }
    assert(left@ =~= right@);
    true
}

/// Whether `bytes` are the word `word`.
pub fn is_word(bytes: &[u8], word: &str) -> (same: bool)
    ensures
        same == (bytes@ == word.spec_bytes()),
{
    same_bytes(bytes, word.as_bytes())
}

/// Whether two texts are the same.
pub fn same_text(left: &str, right: &str) -> (same: bool)
    ensures
        same == (left@ == right@),
{
    left.to_owned() == right.to_owned()
}

/// The elements that the glyph format knows.
#[derive(Clone, Copy, Debug, PartialEq, Eq, Structural)]
pub enum ElementName {
    Glyph,
    Unicode,
    Anchor,
    Guideline,
    Advance,
    Note,
    Lib,
    Image,
    Other,
}

/// The element that the bytes `name` name.
pub open spec fn element_named(name: Seq<u8>) -> ElementName {
    if name == "glyph".spec_bytes() {
        ElementName::Glyph
    } else if name == "unicode".spec_bytes() {
        ElementName::Unicode
    } else if name == "anchor".spec_bytes() {
        ElementName::Anchor
    } else if name == "guideline".spec_bytes() {
        ElementName::Guideline
    } else if name == "advance".spec_bytes() {
        ElementName::Advance
    } else if name == "note".spec_bytes() {
        ElementName::Note
    } else if name == "lib".spec_bytes() {
        ElementName::Lib
    } else if name == "image".spec_bytes() {
        ElementName::Image
    } else {
        ElementName::Other
    }
}

/// The element that the bytes of a tag's name name.
pub fn element_name(name: &[u8]) -> (element: ElementName)
    ensures
        element == element_named(name@),
{
    if is_word(name, "glyph") {
        ElementName::Glyph
    } else if is_word(name, "unicode") {
        ElementName::Unicode
    } else if is_word(name, "anchor") {
        ElementName::Anchor
    } else if is_word(name, "guideline") {
        ElementName::Guideline
    } else if is_word(name, "advance") {
        ElementName::Advance
    } else if is_word(name, "note") {
        ElementName::Note
    } else if is_word(name, "lib") {
        ElementName::Lib
    } else if is_word(name, "image") {
        ElementName::Image
    } else {
        ElementName::Other
    }
}

/// The attributes that the glyph format knows.
#[derive(Clone, Copy, Debug, PartialEq, Eq, Structural)]
pub enum AttributeName {
    Name,
    Format,
    FormatMinor,
    Height,
    Width,
    Hex,
    X,
    Y,
    Angle,
    Color,
    Identifier,
    FileName,
    XScale,
    XyScale,
    YxScale,
    YScale,
    XOffset,
    YOffset,
    Other,
}

/// The attribute that the bytes `key` name.
pub open spec fn attribute_named(key: Seq<u8>) -> AttributeName {
    if key == "name".spec_bytes() {
        AttributeName::Name
    } else if key == "format".spec_bytes() {
        AttributeName::Format
    } else if key == "formatMinor".spec_bytes() {
        AttributeName::FormatMinor
    } else if key == "height".spec_bytes() {
        AttributeName::Height
    } else if key == "width".spec_bytes() {
        AttributeName::Width
    } else if key == "hex".spec_bytes() {
        AttributeName::Hex
    } else if key == "x".spec_bytes() {
        AttributeName::X
    } else if key == "y".spec_bytes() {
        AttributeName::Y
    } else if key == "angle".spec_bytes() {
        AttributeName::Angle
    } else if key == "color".spec_bytes() {
        AttributeName::Color
    } else if key == "identifier".spec_bytes() {
        AttributeName::Identifier
    } else if key == "fileName".spec_bytes() {
        AttributeName::FileName
    } else if key == "xScale".spec_bytes() {
        AttributeName::XScale
    } else if key == "xyScale".spec_bytes() {
        AttributeName::XyScale
    } else if key == "yxScale".spec_bytes() {
        AttributeName::YxScale
    } else if key == "yScale".spec_bytes() {
        AttributeName::YScale
    } else if key == "xOffset".spec_bytes() {
        AttributeName::XOffset
    } else if key == "yOffset".spec_bytes() {
        AttributeName::YOffset
    } else {
        AttributeName::Other
    }
}

/// The attribute that the bytes of a key name.
pub fn attribute_name(key: &[u8]) -> (attribute: AttributeName)
    ensures
        attribute == attribute_named(key@),
{
    if is_word(key, "name") {
        AttributeName::Name
    } else if is_word(key, "format") {
        AttributeName::Format
    } else if is_word(key, "formatMinor") {
        AttributeName::FormatMinor
    } else if is_word(key, "height") {
        AttributeName::Height
    } else if is_word(key, "width") {
        AttributeName::Width
    } else if is_word(key, "hex") {
        AttributeName::Hex
    } else if is_word(key, "x") {
        AttributeName::X
    } else if is_word(key, "y") {
        AttributeName::Y
    } else if is_word(key, "angle") {
        AttributeName::Angle
    } else if is_word(key, "color") {
        AttributeName::Color
    } else if is_word(key, "identifier") {
        AttributeName::Identifier
    } else if is_word(key, "fileName") {
        AttributeName::FileName
    } else if is_word(key, "xScale") {
        AttributeName::XScale
    } else if is_word(key, "xyScale") {
        AttributeName::XyScale
    } else if is_word(key, "yxScale") {
        AttributeName::YxScale
    } else if is_word(key, "yScale") {
        AttributeName::YScale
    } else if is_word(key, "xOffset") {
        AttributeName::XOffset
    } else if is_word(key, "yOffset") {
        AttributeName::YOffset
    } else {
        AttributeName::Other
    }
}

} // verus!
