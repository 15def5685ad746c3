//! One builder for each kind of element: from the attributes of a tag to the
//! part of the glyph that the tag describes.
//!
//! Every builder goes through the attributes in their order and stops at the
//! first that breaks a rule. Where the tokenizer could not read the
//! attributes to their end, its error comes after the rules of the
//! attributes that it did read, and before the rules on the element as a
//! whole.

use crate::error::{Error, ErrorKind, Failure, Flaw, XmlError};
use crate::glyph::{
    color_view, identifier_view, text_of, AffineTransform, Anchor, AnchorView, GlifVersion, Glyph,
    GlyphView, Guideline, GuidelineView, Image, ImageView, Line, LineView, TransformView,
};
use crate::identifier::{
    identifier_flaw, is_identifier, parse_identifier, Identifier, IdentifierSet,
};
use crate::number::{in_full_turn, is_number, parse_number, Number};
use crate::primitive::{
    codepoint_cause, codepoint_of, color_of, parse_codepoint, parse_color, parse_integer,
    u32_failure, u32_reading, Color, ColorView,
};
use crate::xml::{
    attribute_name, attribute_named, same_text, AttributeList, AttributeName, AttributeView,
};
use vstd::prelude::*;

verus! {

/// How far reading the attributes of a tag has come: the fields so far, or
/// the rule that an attribute broke.
pub enum Scan<A> {
    Going(A),
    Stopped(Flaw),
}

/// What a builder makes of a tag.
pub enum Outcome<V> {
    /// The part of the glyph that the tag describes.
    Built(V),
    /// The rule of the glyph format that the tag breaks.
    Flawed(Flaw),
    /// The error of the tokenizer on the attributes of the tag.
    Malformed(XmlError),
}

impl<V> Outcome<V> {
    /// How the tag failed, where nothing was built.
    pub open spec fn failure(self) -> Failure {
        match self {
            Outcome::Malformed(error) => Failure::Xml(error),
            Outcome::Flawed(flaw) => Failure::Broken(flaw),
            Outcome::Built(_) => arbitrary(),
        }
    }
}

/// The outcome of a builder: the first broken rule of an attribute, else the
/// error of the tokenizer, else what the element as a whole comes to.
pub open spec fn conclude<A, V>(
    scanned: Scan<A>,
    failure: Option<XmlError>,
    finish: spec_fn(A) -> Result<V, Flaw>,
) -> Outcome<V> {
    match scanned {
        Scan::Stopped(flaw) => Outcome::Flawed(flaw),
        Scan::Going(fields) => match failure {
            Some(error) => Outcome::Malformed(error),
            None => match finish(fields) {
                Ok(built) => Outcome::Built(built),
                Err(flaw) => Outcome::Flawed(flaw),
            },
        },
    }
}

/// `result` is the outcome `outcome`.
pub open spec fn agrees<T: View>(result: Result<T, Error>, outcome: Outcome<T::V>) -> bool {
    match outcome {
        Outcome::Built(built) => result matches Ok(value) && value@ == built,
        Outcome::Flawed(flaw) => result matches Err(error) && error.is_flaw(flaw),
        Outcome::Malformed(failure) => result matches Err(Error::Xml(error)) && error == failure,
    }
}

/// A number as an attribute gives it: the text, if it follows the grammar.
pub open spec fn number_of(value: Seq<char>) -> Result<Seq<char>, Flaw> {
    if is_number(value) {
        Ok(value)
    } else {
        Err(Flaw::InvalidNumber(value))
    }
}

// The glyph element

/// What the attributes of a `glyph` tag have given so far.
pub struct HeaderFields {
    pub name: Seq<char>,
    pub format: Option<GlifVersion>,
    pub format_minor: u32,
}

impl HeaderFields {
    /// Nothing read yet.
    pub open spec fn start() -> HeaderFields {
        HeaderFields { name: Seq::empty(), format: None, format_minor: 0 }
    }
}

/// What one attribute of a `glyph` tag adds, or the rule that it breaks.
pub open spec fn header_step(fields: HeaderFields, attribute: AttributeView) -> Scan<HeaderFields> {
    match attribute_named(attribute.key) {
        AttributeName::Name => Scan::Going(
            HeaderFields { name: fields.name + attribute.value, ..fields },
        ),
        AttributeName::Format => if attribute.value == "1"@ {
            Scan::Going(HeaderFields { format: Some(GlifVersion::V1), ..fields })
        } else if attribute.value == "2"@ {
            Scan::Going(HeaderFields { format: Some(GlifVersion::V2), ..fields })
        } else {
            Scan::Stopped(Flaw::UnsupportedGlifVersion)
        },
        AttributeName::FormatMinor => match u32_reading(attribute.value, 10) {
            Some(format_minor) => Scan::Going(HeaderFields { format_minor, ..fields }),
            None => Scan::Stopped(
                Flaw::InvalidInteger(attribute.value, u32_failure(attribute.value, 10)),
            ),
        },
        _ => Scan::Stopped(Flaw::UnexpectedAttribute),
    }
}

/// The attributes of a `glyph` tag, read in their order from `fields` on, as
/// far as they break no rule.
pub open spec fn header_scan(entries: Seq<AttributeView>, fields: HeaderFields) -> Scan<
    HeaderFields,
>
    decreases entries.len(),
{
    if entries.len() == 0 {
        Scan::Going(fields)
    } else {
        match header_step(fields, entries.first()) {
            Scan::Going(next) => header_scan(entries.drop_first(), next),
            Scan::Stopped(flaw) => Scan::Stopped(flaw),
        }
    }
}

/// The glyph that an opening `glyph` tag starts: it needs a name that is not
/// empty and a version, 1 or 2.
pub open spec fn header_of(entries: Seq<AttributeView>, failure: Option<XmlError>) -> Outcome<
    GlyphView,
> {
    conclude(
        header_scan(entries, HeaderFields::start()),
        failure,
        |fields: HeaderFields|
            match fields.format {
                Some(format) if fields.name.len() > 0 => Ok(
                    GlyphView::named(fields.name, format, fields.format_minor),
                ),
                _ => Err(Flaw::InvalidGlyph),
            },
    )
}

/// Builds the glyph record from the attributes of the `glyph` tag: `name`,
/// `format` and, optional, `formatMinor`.
pub fn parse_glyph(attributes: AttributeList) -> (result: Result<Glyph, Error>)
    ensures
        agrees(result, header_of(attributes.entries(), attributes.failure)),
{
    let ghost entries = attributes.entries();
    let AttributeList { items, failure } = attributes;
    let mut name = String::new();
    let mut format: Option<GlifVersion> = None;
    let mut format_minor: u32 = 0;
    let mut i: usize = 0;
    assert(entries.skip(0) =~= entries);
    while i < items.len()
        invariant
            i <= items@.len(),
            entries == attributes.entries(),
            entries.len() == items@.len(),
            forall|j: int| 0 <= j < entries.len() ==> #[trigger] entries[j] == items@[j]@,
            header_scan(entries, HeaderFields::start()) == header_scan(
                entries.skip(i as int),
                HeaderFields { name: name@, format, format_minor },
            ),
        decreases items@.len() - i,
    {
        let attribute = &items[i];
        let value = attribute.value.as_str();
        proof {
            assert(entries.skip(i as int).drop_first() =~= entries.skip(i + 1));
            assert(entries.skip(i as int).first() == attribute@);
        }
        match attribute_name(attribute.key.as_slice()) {
            AttributeName::Name => {
                name.append(value);
            },
            AttributeName::Format => {
                if same_text(value, "1") {
                    format = Some(GlifVersion::V1);
                } else if same_text(value, "2") {
                    format = Some(GlifVersion::V2);
                } else {
                    return Err(Error::Parse(ErrorKind::UnsupportedGlifVersion));
                }
            },
            AttributeName::FormatMinor => {
                match parse_integer(value) {
                    Ok(number) => {
                        format_minor = number;
                    },
                    Err(error) => {
                        return Err(error);
                    },
                }
            },
            _ => {
                return Err(Error::Parse(ErrorKind::UnexpectedAttribute));
            },
        }
        i += 1;
    }
    assert(entries.skip(i as int).len() == 0);
    if let Some(error) = failure {
        return Err(Error::Xml(error));
    }
    match format {
        Some(format) if !name.as_str().is_empty() => {
            let glyph = Glyph {
                name,
                format,
                format_minor,
                height: Number::zero(),
                width: Number::zero(),
                codepoints: Vec::new(),
                anchors: Vec::new(),
                guidelines: Vec::new(),
                image: None,
                note: None,
                lib: None,
            };
            proof {
                assert(glyph@.anchors =~= Seq::<AnchorView>::empty());
                assert(glyph@.guidelines =~= Seq::<GuidelineView>::empty());
                assert(glyph@.codepoints =~= Seq::<u32>::empty());
            }
            Ok(glyph)
        },
        _ => Err(Error::Parse(ErrorKind::InvalidGlyph)),
    }
}

// The advance element

/// What the attributes of an `advance` tag have given so far.
pub struct AdvanceFields {
    pub height: Seq<char>,
    pub width: Seq<char>,
}

impl AdvanceFields {
    /// Nothing read yet: both are 0.
    pub open spec fn start() -> AdvanceFields {
        AdvanceFields { height: "0"@, width: "0"@ }
    }
}

/// What one attribute of an `advance` tag adds, or the rule that it breaks.
pub open spec fn advance_step(fields: AdvanceFields, attribute: AttributeView) -> Scan<
    AdvanceFields,
> {
    match (attribute_named(attribute.key), number_of(attribute.value)) {
        (AttributeName::Height, Ok(height)) => Scan::Going(AdvanceFields { height, ..fields }),
        (AttributeName::Width, Ok(width)) => Scan::Going(AdvanceFields { width, ..fields }),
        (AttributeName::Height, Err(flaw)) | (AttributeName::Width, Err(flaw)) => Scan::Stopped(
            flaw,
        ),
        _ => Scan::Stopped(Flaw::UnexpectedAttribute),
    }
}

/// The attributes of an `advance` tag, read in their order from `fields` on,
/// as far as they break no rule.
pub open spec fn advance_scan(entries: Seq<AttributeView>, fields: AdvanceFields) -> Scan<
    AdvanceFields,
>
    decreases entries.len(),
{
    if entries.len() == 0 {
        Scan::Going(fields)
    } else {
        match advance_step(fields, entries.first()) {
            Scan::Going(next) => advance_scan(entries.drop_first(), next),
            Scan::Stopped(flaw) => Scan::Stopped(flaw),
        }
    }
}

/// The height and the width that an `advance` tag gives, in this order; each
/// is 0 where the tag does not give it.
pub open spec fn advance_of(entries: Seq<AttributeView>, failure: Option<XmlError>) -> Outcome<
    (Seq<char>, Seq<char>),
> {
    conclude(
        advance_scan(entries, AdvanceFields::start()),
        failure,
        |fields: AdvanceFields| Ok((fields.height, fields.width)),
    )
}

/// Reads the attributes of an `advance` tag: `height` and `width`, both
/// optional. Gives the height first.
pub fn parse_advance(attributes: AttributeList) -> (result: Result<(Number, Number), Error>)
    ensures
        agrees(result, advance_of(attributes.entries(), attributes.failure)),
{
    let ghost entries = attributes.entries();
    let AttributeList { items, failure } = attributes;
    let mut height = Number::zero();
    let mut width = Number::zero();
    let mut i: usize = 0;
    assert(entries.skip(0) =~= entries);
    while i < items.len()
        invariant
            i <= items@.len(),
            entries == attributes.entries(),
            entries.len() == items@.len(),
            forall|j: int| 0 <= j < entries.len() ==> #[trigger] entries[j] == items@[j]@,
            advance_scan(entries, AdvanceFields::start()) == advance_scan(
                entries.skip(i as int),
                AdvanceFields { height: height@, width: width@ },
            ),
        decreases items@.len() - i,
    {
        let attribute = &items[i];
        let value = attribute.value.as_str();
        proof {
            assert(entries.skip(i as int).drop_first() =~= entries.skip(i + 1));
            assert(entries.skip(i as int).first() == attribute@);
        }
        match attribute_name(attribute.key.as_slice()) {
            AttributeName::Height => match parse_number(value) {
                Ok(number) => {
                    height = number;
                },
                Err(error) => {
                    return Err(error);
                },
            },
            AttributeName::Width => match parse_number(value) {
                Ok(number) => {
                    width = number;
                },
                Err(error) => {
                    return Err(error);
                },
            },
            _ => {
                return Err(Error::Parse(ErrorKind::UnexpectedAttribute));
            },
        }
        i += 1;
    }
    assert(entries.skip(i as int).len() == 0);
    match failure {
        Some(error) => Err(Error::Xml(error)),
        None => Ok((height, width)),
    }
}

// The unicode element

/// What one attribute of a `unicode` tag adds, or the rule that it breaks.
pub open spec fn unicode_step(found: Option<u32>, attribute: AttributeView) -> Scan<Option<u32>> {
    match (attribute_named(attribute.key), codepoint_of(attribute.value)) {
        (AttributeName::Hex, Some(scalar)) => Scan::Going(Some(scalar)),
        (AttributeName::Hex, None) => Scan::Stopped(
            Flaw::InvalidCodepoint(attribute.value, codepoint_cause(attribute.value)),
        ),
        _ => Scan::Stopped(Flaw::UnexpectedAttribute),
    }
}

/// The attributes of a `unicode` tag, read in their order from `fields` on,
/// as far as they break no rule.
pub open spec fn unicode_scan(entries: Seq<AttributeView>, fields: Option<u32>) -> Scan<Option<u32>>
    decreases entries.len(),
{
    if entries.len() == 0 {
        Scan::Going(fields)
    } else {
        match unicode_step(fields, entries.first()) {
            Scan::Going(next) => unicode_scan(entries.drop_first(), next),
            Scan::Stopped(flaw) => Scan::Stopped(flaw),
        }
    }
}

/// The scalar value of the character that a `unicode` tag names.
pub open spec fn unicode_of(entries: Seq<AttributeView>, failure: Option<XmlError>) -> Outcome<u32> {
    conclude(
        unicode_scan(entries, None),
        failure,
        |found: Option<u32>|
            match found {
                Some(scalar) => Ok(scalar),
                None => Err(Flaw::InvalidUnicode),
            },
    )
}

/// Reads the attributes of a `unicode` tag: `hex`, the code point of a
/// character.
pub fn parse_unicode(attributes: AttributeList) -> (result: Result<char, Error>)
    ensures
        match unicode_of(attributes.entries(), attributes.failure) {
            Outcome::Built(scalar) => result matches Ok(c) && c as u32 == scalar,
            Outcome::Flawed(flaw) => result matches Err(error) && error.is_flaw(flaw),
            Outcome::Malformed(failure) => result matches Err(Error::Xml(error)) && error
                == failure,
        },
{
    let ghost entries = attributes.entries();
    let AttributeList { items, failure } = attributes;
    let mut codepoint: Option<char> = None;
    let mut i: usize = 0;
    assert(entries.skip(0) =~= entries);
    while i < items.len()
        invariant
            i <= items@.len(),
            entries == attributes.entries(),
            entries.len() == items@.len(),
            forall|j: int| 0 <= j < entries.len() ==> #[trigger] entries[j] == items@[j]@,
            unicode_scan(entries, None) == unicode_scan(
                entries.skip(i as int),
                match codepoint {
                    Some(c) => Some(c as u32),
                    None => None,
                },
            ),
        decreases items@.len() - i,
    {
        let attribute = &items[i];
        let value = attribute.value.as_str();
        proof {
            assert(entries.skip(i as int).drop_first() =~= entries.skip(i + 1));
            assert(entries.skip(i as int).first() == attribute@);
        }
        match attribute_name(attribute.key.as_slice()) {
            AttributeName::Hex => match parse_codepoint(value) {
                Ok(c) => {
                    codepoint = Some(c);
                },
                Err(error) => {
                    return Err(error);
                },
            },
            _ => {
                return Err(Error::Parse(ErrorKind::UnexpectedAttribute));
            },
        }
        i += 1;
    }
    assert(entries.skip(i as int).len() == 0);
    if let Some(error) = failure {
        return Err(Error::Xml(error));
    }
    match codepoint {
        Some(c) => Ok(c),
        None => Err(Error::Parse(ErrorKind::InvalidUnicode)),
    }
}

// The anchor element

/// What the attributes of an `anchor` tag have given so far.
pub struct AnchorFields {
    pub x: Option<Seq<char>>,
    pub y: Option<Seq<char>>,
    pub name: Option<Seq<char>>,
    pub color: Option<ColorView>,
    pub identifier: Option<Seq<char>>,
    /// The identifiers met so far in the document.
    pub seen: Set<Seq<char>>,
}

impl AnchorFields {
    /// No attribute read yet, the identifiers `seen` met before.
    pub open spec fn start(seen: Set<Seq<char>>) -> AnchorFields {
        AnchorFields { x: None, y: None, name: None, color: None, identifier: None, seen }
    }
}

/// What one attribute of an `anchor` tag adds, or the rule that it breaks.
pub open spec fn anchor_step(
    fields: AnchorFields,
    attribute: AttributeView,
    version: GlifVersion,
) -> Scan<AnchorFields> {
    let value = attribute.value;
    match attribute_named(attribute.key) {
        AttributeName::X => match number_of(value) {
            Ok(x) => Scan::Going(AnchorFields { x: Some(x), ..fields }),
            Err(flaw) => Scan::Stopped(flaw),
        },
        AttributeName::Y => match number_of(value) {
            Ok(y) => Scan::Going(AnchorFields { y: Some(y), ..fields }),
            Err(flaw) => Scan::Stopped(flaw),
        },
        AttributeName::Name => Scan::Going(AnchorFields { name: Some(value), ..fields }),
        AttributeName::Color => match color_of(value) {
            Some(color) => Scan::Going(AnchorFields { color: Some(color), ..fields }),
            None => Scan::Stopped(Flaw::InvalidColor),
        },
        AttributeName::Identifier => match identifier_flaw(value, fields.seen, version) {
            Some(flaw) => Scan::Stopped(flaw),
            None => Scan::Going(
                AnchorFields { identifier: Some(value), seen: fields.seen.insert(value), ..fields },
            ),
        },
        _ => Scan::Stopped(Flaw::UnexpectedAttribute),
    }
}

/// The attributes of an `anchor` tag, read in their order from `fields` on,
/// as far as they break no rule.
pub open spec fn anchor_scan(
    entries: Seq<AttributeView>,
    fields: AnchorFields,
    version: GlifVersion,
) -> Scan<AnchorFields>
    decreases entries.len(),
{
    if entries.len() == 0 {
        Scan::Going(fields)
    } else {
        match anchor_step(fields, entries.first(), version) {
            Scan::Going(next) => anchor_scan(entries.drop_first(), next, version),
            Scan::Stopped(flaw) => Scan::Stopped(flaw),
        }
    }
}

/// The anchor that an `anchor` tag describes, in a document of the given
/// version in which the identifiers `seen` were met before. It needs both
/// `x` and `y`.
pub open spec fn anchor_of(
    entries: Seq<AttributeView>,
    failure: Option<XmlError>,
    seen: Set<Seq<char>>,
    version: GlifVersion,
) -> Outcome<AnchorView> {
    conclude(
        anchor_scan(entries, AnchorFields::start(seen), version),
        failure,
        |fields: AnchorFields|
            match (fields.x, fields.y) {
                (Some(x), Some(y)) => Ok(
                    AnchorView {
                        x,
                        y,
                        name: fields.name,
                        color: fields.color,
                        identifier: fields.identifier,
                    },
                ),
                _ => Err(Flaw::InvalidAnchor),
            },
    )
}

/// The identifiers met once the attributes of an `anchor` tag are read as
/// far as they go: to their end, or up to the first that breaks a rule.
pub open spec fn anchor_seen(
    entries: Seq<AttributeView>,
    fields: AnchorFields,
    version: GlifVersion,
) -> Set<Seq<char>>
    decreases entries.len(),
{
    if entries.len() == 0 {
        fields.seen
    } else {
        match anchor_step(fields, entries.first(), version) {
            Scan::Going(next) => anchor_seen(entries.drop_first(), next, version),
            Scan::Stopped(_) => fields.seen,
        }
    }
}

/// The identifiers met once an `anchor` tag is read, in a document in which
/// the identifiers `seen` were met before.
pub open spec fn seen_after_anchor(
    entries: Seq<AttributeView>,
    seen: Set<Seq<char>>,
    version: GlifVersion,
) -> Set<Seq<char>> {
    anchor_seen(entries, AnchorFields::start(seen), version)
}

/// What reading one element did to the record of identifiers: nothing is
/// forgotten; the identifier of the element, if it has one, can serve as
/// such, is new and is recorded; and under version 1 of the format the
/// element has none.
pub open spec fn identifier_recorded(
    identifier: Option<Seq<char>>,
    before: Set<Seq<char>>,
    after: Set<Seq<char>>,
    version: GlifVersion,
) -> bool {
    &&& before.subset_of(after)
    &&& identifier matches Some(text) ==> is_identifier(text) && !before.contains(text)
        && after.contains(text)
    &&& version == GlifVersion::V1 ==> identifier is None
}

/// Builds an anchor from the attributes of an `anchor` tag: `x` and `y`,
/// and, optional, `name`, `color` and `identifier`.
pub fn parse_anchor(
    attributes: AttributeList,
    identifier_set: &mut IdentifierSet,
    glif_format: &GlifVersion,
) -> (result: Result<Anchor, Error>)
    ensures
        agrees(
            result,
            anchor_of(
                attributes.entries(),
                attributes.failure,
                old(identifier_set)@,
                *glif_format,
            ),
        ),
        final(identifier_set)@ == seen_after_anchor(
            attributes.entries(),
            old(identifier_set)@,
            *glif_format,
        ),
        old(identifier_set)@.subset_of(final(identifier_set)@),
        result matches Ok(anchor) ==> identifier_recorded(
            anchor@.identifier,
            old(identifier_set)@,
            final(identifier_set)@,
            *glif_format,
        ),
{
    let ghost entries = attributes.entries();
    let ghost seen = identifier_set@;
    let AttributeList { items, failure } = attributes;
    let mut x: Option<Number> = None;
    let mut y: Option<Number> = None;
    let mut name: Option<String> = None;
    let mut color: Option<Color> = None;
    let mut identifier: Option<Identifier> = None;
    let mut i: usize = 0;
    assert(entries.skip(0) =~= entries);
    while i < items.len()
        invariant
            i <= items@.len(),
            entries == attributes.entries(),
            entries.len() == items@.len(),
            forall|j: int| 0 <= j < entries.len() ==> #[trigger] entries[j] == items@[j]@,
            anchor_seen(entries, AnchorFields::start(seen), *glif_format) == anchor_seen(
                entries.skip(i as int),
                AnchorFields {
                    x: number_view(x),
                    y: number_view(y),
                    name: text_of(name),
                    color: color_view(color),
                    identifier: identifier_view(identifier),
                    seen: identifier_set@,
                },
                *glif_format,
            ),
            anchor_scan(entries, AnchorFields::start(seen), *glif_format) == anchor_scan(
                entries.skip(i as int),
                AnchorFields {
                    x: number_view(x),
                    y: number_view(y),
                    name: text_of(name),
                    color: color_view(color),
                    identifier: identifier_view(identifier),
                    seen: identifier_set@,
                },
                *glif_format,
            ),
            seen == old(identifier_set)@,
            identifier_recorded(identifier_view(identifier), seen, identifier_set@, *glif_format),
        decreases items@.len() - i,
    {
        let attribute = &items[i];
        let value = attribute.value.as_str();
        proof {
            assert(entries.skip(i as int).drop_first() =~= entries.skip(i + 1));
            assert(entries.skip(i as int).first() == attribute@);
        }
        match attribute_name(attribute.key.as_slice()) {
            AttributeName::X => match parse_number(value) {
                Ok(number) => {
                    x = Some(number);
                },
                Err(error) => {
                    return Err(error);
                },
            },
            AttributeName::Y => match parse_number(value) {
                Ok(number) => {
                    y = Some(number);
                },
                Err(error) => {
                    return Err(error);
                },
            },
            AttributeName::Name => {
                name = Some(value.to_owned());
            },
            AttributeName::Color => match parse_color(value) {
                Ok(parsed) => {
                    color = Some(parsed);
                },
                Err(error) => {
                    return Err(error);
                },
            },
            AttributeName::Identifier => match parse_identifier(value, identifier_set, glif_format) {
                Ok(parsed) => {
                    identifier = Some(parsed);
                },
                Err(error) => {
                    return Err(error);
                },
            },
            _ => {
                return Err(Error::Parse(ErrorKind::UnexpectedAttribute));
            },
        }
        i += 1;
    }
    assert(entries.skip(i as int).len() == 0);
    if let Some(error) = failure {
        return Err(Error::Xml(error));
    }
    match (x, y) {
        (Some(x), Some(y)) => Ok(Anchor { x, y, name, color, identifier }),
        _ => Err(Error::Parse(ErrorKind::InvalidAnchor)),
    }
}

/// The numeral of an optional number.
pub open spec fn number_view(number: Option<Number>) -> Option<Seq<char>> {
    match number {
        Some(number) => Some(number@),
        None => None,
    }
}

// The guideline element

/// What the attributes of a `guideline` tag have given so far.
pub struct GuidelineFields {
    pub x: Option<Seq<char>>,
    pub y: Option<Seq<char>>,
    pub angle: Option<Seq<char>>,
    pub name: Option<Seq<char>>,
    pub color: Option<ColorView>,
    pub identifier: Option<Seq<char>>,
    /// The identifiers met so far in the document.
    pub seen: Set<Seq<char>>,
}

impl GuidelineFields {
    /// No attribute read yet, the identifiers `seen` met before.
    pub open spec fn start(seen: Set<Seq<char>>) -> GuidelineFields {
        GuidelineFields {
            x: None,
            y: None,
            angle: None,
            name: None,
            color: None,
            identifier: None,
            seen,
        }
    }
}

/// What one attribute of a `guideline` tag adds, or the rule that it breaks.
/// An angle is held to its range where it stands: the number that the
/// attribute writes must lie between 0 and 360, exactly as written.
pub open spec fn guideline_step(
    fields: GuidelineFields,
    attribute: AttributeView,
    version: GlifVersion,
) -> Scan<GuidelineFields> {
    let value = attribute.value;
    match attribute_named(attribute.key) {
        AttributeName::X => match number_of(value) {
            Ok(x) => Scan::Going(GuidelineFields { x: Some(x), ..fields }),
            Err(flaw) => Scan::Stopped(flaw),
        },
        AttributeName::Y => match number_of(value) {
            Ok(y) => Scan::Going(GuidelineFields { y: Some(y), ..fields }),
            Err(flaw) => Scan::Stopped(flaw),
        },
        AttributeName::Angle => match number_of(value) {
            Ok(angle) => if in_full_turn(angle) {
                Scan::Going(GuidelineFields { angle: Some(angle), ..fields })
            } else {
                Scan::Stopped(Flaw::InvalidAngle)
            },
            Err(flaw) => Scan::Stopped(flaw),
        },
        AttributeName::Name => Scan::Going(GuidelineFields { name: Some(value), ..fields }),
        AttributeName::Color => match color_of(value) {
            Some(color) => Scan::Going(GuidelineFields { color: Some(color), ..fields }),
            None => Scan::Stopped(Flaw::InvalidColor),
        },
        AttributeName::Identifier => match identifier_flaw(value, fields.seen, version) {
            Some(flaw) => Scan::Stopped(flaw),
            None => Scan::Going(
                GuidelineFields {
                    identifier: Some(value),
                    seen: fields.seen.insert(value),
                    ..fields
                },
            ),
        },
        _ => Scan::Stopped(Flaw::UnexpectedAttribute),
    }
}

/// The attributes of a `guideline` tag, read in their order from `fields` on,
/// as far as they break no rule.
pub open spec fn guideline_scan(
    entries: Seq<AttributeView>,
    fields: GuidelineFields,
    version: GlifVersion,
) -> Scan<GuidelineFields>
    decreases entries.len(),
{
    if entries.len() == 0 {
        Scan::Going(fields)
    } else {
        match guideline_step(fields, entries.first(), version) {
            Scan::Going(next) => guideline_scan(entries.drop_first(), next, version),
            Scan::Stopped(flaw) => Scan::Stopped(flaw),
        }
    }
}

/// The identifiers met once the attributes of a `guideline` tag are read as
/// far as they go: to their end, or up to the first that breaks a rule.
pub open spec fn guideline_seen(
    entries: Seq<AttributeView>,
    fields: GuidelineFields,
    version: GlifVersion,
) -> Set<Seq<char>>
    decreases entries.len(),
{
    if entries.len() == 0 {
        fields.seen
    } else {
        match guideline_step(fields, entries.first(), version) {
            Scan::Going(next) => guideline_seen(entries.drop_first(), next, version),
            Scan::Stopped(_) => fields.seen,
        }
    }
}

/// The identifiers met once a `guideline` tag is read, in a document in
/// which the identifiers `seen` were met before.
pub open spec fn seen_after_guideline(
    entries: Seq<AttributeView>,
    seen: Set<Seq<char>>,
    version: GlifVersion,
) -> Set<Seq<char>> {
    guideline_seen(entries, GuidelineFields::start(seen), version)
}

/// The line that `x`, `y` and `angle` describe: `x` alone a vertical line,
/// `y` alone a horizontal one, all three an angled one. Nothing else is a
/// line.
pub open spec fn line_of(
    x: Option<Seq<char>>,
    y: Option<Seq<char>>,
    angle: Option<Seq<char>>,
) -> Option<LineView> {
    match (x, y, angle) {
        (Some(x), None, None) => Some(LineView::Vertical(x)),
        (None, Some(y), None) => Some(LineView::Horizontal(y)),
        (Some(x), Some(y), Some(degrees)) => Some(LineView::Angle { x, y, degrees }),
        _ => None,
    }
}

/// The guideline that a `guideline` tag describes, in a document of the
/// given version in which the identifiers `seen` were met before.
pub open spec fn guideline_of(
    entries: Seq<AttributeView>,
    failure: Option<XmlError>,
    seen: Set<Seq<char>>,
    version: GlifVersion,
) -> Outcome<GuidelineView> {
    conclude(
        guideline_scan(entries, GuidelineFields::start(seen), version),
        failure,
        |fields: GuidelineFields|
            match line_of(fields.x, fields.y, fields.angle) {
                Some(line) => Ok(
                    GuidelineView {
                        line,
                        name: fields.name,
                        color: fields.color,
                        identifier: fields.identifier,
                    },
                ),
                None => Err(Flaw::InvalidGuideline),
            },
    )
}

/// Builds a guideline from the attributes of a `guideline` tag: `x`, `y`
/// and `angle` in one of the three shapes of a line, and, optional, `name`,
/// `color` and `identifier`.
pub fn parse_guideline(
    attributes: AttributeList,
    identifier_set: &mut IdentifierSet,
    glif_format: &GlifVersion,
) -> (result: Result<Guideline, Error>)
    ensures
        agrees(
            result,
            guideline_of(
                attributes.entries(),
                attributes.failure,
                old(identifier_set)@,
                *glif_format,
            ),
        ),
        final(identifier_set)@ == seen_after_guideline(
            attributes.entries(),
            old(identifier_set)@,
            *glif_format,
        ),
        old(identifier_set)@.subset_of(final(identifier_set)@),
        result matches Ok(guideline) ==> {
            &&& identifier_recorded(
                guideline@.identifier,
                old(identifier_set)@,
                final(identifier_set)@,
                *glif_format,
            )
            &&& guideline@.line.angle_in_range()
        },
{
    let ghost entries = attributes.entries();
    let ghost seen = identifier_set@;
    let AttributeList { items, failure } = attributes;
    let mut x: Option<Number> = None;
    let mut y: Option<Number> = None;
    let mut angle: Option<Number> = None;
    let mut name: Option<String> = None;
    let mut color: Option<Color> = None;
    let mut identifier: Option<Identifier> = None;
    let mut i: usize = 0;
    assert(entries.skip(0) =~= entries);
    while i < items.len()
        invariant
            i <= items@.len(),
            entries == attributes.entries(),
            entries.len() == items@.len(),
            forall|j: int| 0 <= j < entries.len() ==> #[trigger] entries[j] == items@[j]@,
            guideline_seen(entries, GuidelineFields::start(seen), *glif_format) == guideline_seen(
                entries.skip(i as int),
                GuidelineFields {
                    x: number_view(x),
                    y: number_view(y),
                    angle: number_view(angle),
                    name: text_of(name),
                    color: color_view(color),
                    identifier: identifier_view(identifier),
                    seen: identifier_set@,
                },
                *glif_format,
            ),
            guideline_scan(entries, GuidelineFields::start(seen), *glif_format) == guideline_scan(
                entries.skip(i as int),
                GuidelineFields {
                    x: number_view(x),
                    y: number_view(y),
                    angle: number_view(angle),
                    name: text_of(name),
                    color: color_view(color),
                    identifier: identifier_view(identifier),
                    seen: identifier_set@,
                },
                *glif_format,
            ),
            seen == old(identifier_set)@,
            identifier_recorded(identifier_view(identifier), seen, identifier_set@, *glif_format),
            angle matches Some(degrees) ==> in_full_turn(degrees@),
        decreases items@.len() - i,
    {
        let attribute = &items[i];
        let value = attribute.value.as_str();
        proof {
            assert(entries.skip(i as int).drop_first() =~= entries.skip(i + 1));
            assert(entries.skip(i as int).first() == attribute@);
        }
        match attribute_name(attribute.key.as_slice()) {
            AttributeName::X => match parse_number(value) {
                Ok(number) => {
                    x = Some(number);
                },
                Err(error) => {
                    return Err(error);
                },
            },
            AttributeName::Y => match parse_number(value) {
                Ok(number) => {
                    y = Some(number);
                },
                Err(error) => {
                    return Err(error);
                },
            },
            AttributeName::Angle => match parse_number(value) {
                Ok(number) => {
                    if !number.is_in_full_turn() {
                        return Err(Error::Parse(ErrorKind::InvalidAngle));
                    }
                    angle = Some(number);
                },
                Err(error) => {
                    return Err(error);
                },
            },
            AttributeName::Name => {
                name = Some(value.to_owned());
            },
            AttributeName::Color => match parse_color(value) {
                Ok(parsed) => {
                    color = Some(parsed);
                },
                Err(error) => {
                    return Err(error);
                },
            },
            AttributeName::Identifier => match parse_identifier(value, identifier_set, glif_format) {
                Ok(parsed) => {
                    identifier = Some(parsed);
                },
                Err(error) => {
                    return Err(error);
                },
            },
            _ => {
                return Err(Error::Parse(ErrorKind::UnexpectedAttribute));
            },
        }
        i += 1;
    }
    assert(entries.skip(i as int).len() == 0);
    if let Some(error) = failure {
        return Err(Error::Xml(error));
    }
    let line = match (x, y, angle) {
        (Some(x), None, None) => Line::Vertical(x),
        (None, Some(y), None) => Line::Horizontal(y),
        (Some(x), Some(y), Some(degrees)) => Line::Angle { x, y, degrees },
        _ => {
            return Err(Error::Parse(ErrorKind::InvalidGuideline));
        },
    };
    Ok(Guideline { line, name, color, identifier })
}

// The image element

/// What the attributes of an `image` tag have given so far.
pub struct ImageFields {
    pub file_name: Option<Seq<char>>,
    pub color: Option<ColorView>,
    pub transform: TransformView,
}

impl ImageFields {
    /// Nothing read yet: the transform is the identity.
    pub open spec fn start() -> ImageFields {
        ImageFields { file_name: None, color: None, transform: TransformView::identity() }
    }
}

/// What one attribute of an `image` tag adds, or the rule that it breaks.
pub open spec fn image_step(fields: ImageFields, attribute: AttributeView) -> Scan<ImageFields> {
    let value = attribute.value;
    let transform = fields.transform;
    match (attribute_named(attribute.key), number_of(value)) {
        (AttributeName::XScale, Ok(x_scale)) => Scan::Going(
            ImageFields { transform: TransformView { x_scale, ..transform }, ..fields },
        ),
        (AttributeName::XyScale, Ok(xy_scale)) => Scan::Going(
            ImageFields { transform: TransformView { xy_scale, ..transform }, ..fields },
        ),
        (AttributeName::YxScale, Ok(yx_scale)) => Scan::Going(
            ImageFields { transform: TransformView { yx_scale, ..transform }, ..fields },
        ),
        (AttributeName::YScale, Ok(y_scale)) => Scan::Going(
            ImageFields { transform: TransformView { y_scale, ..transform }, ..fields },
        ),
        (AttributeName::XOffset, Ok(x_offset)) => Scan::Going(
            ImageFields { transform: TransformView { x_offset, ..transform }, ..fields },
        ),
        (AttributeName::YOffset, Ok(y_offset)) => Scan::Going(
            ImageFields { transform: TransformView { y_offset, ..transform }, ..fields },
        ),
        (AttributeName::XScale, Err(flaw))
        | (AttributeName::XyScale, Err(flaw))
        | (AttributeName::YxScale, Err(flaw))
        | (AttributeName::YScale, Err(flaw))
        | (AttributeName::XOffset, Err(flaw))
        | (AttributeName::YOffset, Err(flaw)) => Scan::Stopped(flaw),
        (AttributeName::Color, _) => match color_of(value) {
            Some(color) => Scan::Going(ImageFields { color: Some(color), ..fields }),
            None => Scan::Stopped(Flaw::InvalidColor),
        },
        (AttributeName::FileName, _) => Scan::Going(
            ImageFields { file_name: Some(value), ..fields },
        ),
        _ => Scan::Stopped(Flaw::UnexpectedAttribute),
    }
}

/// The attributes of an `image` tag, read in their order from `fields` on,
/// as far as they break no rule.
pub open spec fn image_scan(entries: Seq<AttributeView>, fields: ImageFields) -> Scan<ImageFields>
    decreases entries.len(),
{
    if entries.len() == 0 {
        Scan::Going(fields)
    } else {
        match image_step(fields, entries.first()) {
            Scan::Going(next) => image_scan(entries.drop_first(), next),
            Scan::Stopped(flaw) => Scan::Stopped(flaw),
        }
    }
}

/// The image that an `image` tag describes. It needs a file name; the parts
/// of the transform that the tag does not give are those of the identity.
pub open spec fn image_of(entries: Seq<AttributeView>, failure: Option<XmlError>) -> Outcome<
    ImageView,
> {
    conclude(
        image_scan(entries, ImageFields::start()),
        failure,
        |fields: ImageFields|
            match fields.file_name {
                Some(file_name) => Ok(
                    ImageView { file_name, color: fields.color, transform: fields.transform },
                ),
                None => Err(Flaw::InvalidImage),
            },
    )
}

/// Builds an image from the attributes of an `image` tag: `fileName`, and,
/// optional, `color` and the six parts of a transform.
pub fn parse_image(attributes: AttributeList) -> (result: Result<Image, Error>)
    ensures
        agrees(result, image_of(attributes.entries(), attributes.failure)),
{
    let ghost entries = attributes.entries();
    let AttributeList { items, failure } = attributes;
    let mut file_name: Option<String> = None;
    let mut color: Option<Color> = None;
    let mut transform = AffineTransform::identity();
    let mut i: usize = 0;
    assert(entries.skip(0) =~= entries);
    while i < items.len()
        invariant
            i <= items@.len(),
            entries == attributes.entries(),
            entries.len() == items@.len(),
            forall|j: int| 0 <= j < entries.len() ==> #[trigger] entries[j] == items@[j]@,
            image_scan(entries, ImageFields::start()) == image_scan(
                entries.skip(i as int),
                ImageFields {
                    file_name: text_of(file_name),
                    color: color_view(color),
                    transform: transform@,
                },
            ),
        decreases items@.len() - i,
    {
        let attribute = &items[i];
        let value = attribute.value.as_str();
        proof {
            assert(entries.skip(i as int).drop_first() =~= entries.skip(i + 1));
            assert(entries.skip(i as int).first() == attribute@);
        }
        let name = attribute_name(attribute.key.as_slice());
        match name {
            AttributeName::XScale
            | AttributeName::XyScale
            | AttributeName::YxScale
            | AttributeName::YScale
            | AttributeName::XOffset
            | AttributeName::YOffset => match parse_number(value) {
                Ok(number) => match name {
                    AttributeName::XScale => {
                        transform.x_scale = number;
                    },
                    AttributeName::XyScale => {
                        transform.xy_scale = number;
                    },
                    AttributeName::YxScale => {
                        transform.yx_scale = number;
                    },
                    AttributeName::YScale => {
                        transform.y_scale = number;
                    },
                    AttributeName::XOffset => {
                        transform.x_offset = number;
                    },
                    _ => {
                        transform.y_offset = number;
                    },
                },
                Err(error) => {
                    return Err(error);
                },
            },
            AttributeName::Color => match parse_color(value) {
                Ok(parsed) => {
                    color = Some(parsed);
                },
                Err(error) => {
                    return Err(error);
                },
            },
            AttributeName::FileName => {
                file_name = Some(value.to_owned());
            },
            _ => {
                return Err(Error::Parse(ErrorKind::UnexpectedAttribute));
            },
        }
        i += 1;
    }
    assert(entries.skip(i as int).len() == 0);
    if let Some(error) = failure {
        return Err(Error::Xml(error));
    }
    match file_name {
        Some(file_name) => Ok(Image { file_name, color, transform }),
        None => Err(Error::Parse(ErrorKind::InvalidImage)),
    }
}

} // verus!
