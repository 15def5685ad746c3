//! The glyph record and its parts.

use crate::identifier::{is_identifier, Identifier};
use crate::number::{in_full_turn, Number};
use crate::primitive::{Color, ColorView};
use vstd::prelude::*;

verus! {

/// `plist::Dictionary`, carried through unopened.
#[verifier::external_type_specification]
#[verifier::external_body]
pub struct ExDictionary(plist::Dictionary);

/// The version of the glyph format that a document declares.
#[derive(Clone, Copy, Debug, PartialEq, Eq, Structural)]
pub enum GlifVersion {
    V1,
    V2,
}

/// The text of an optional string.
pub open spec fn text_of(text: Option<String>) -> Option<Seq<char>> {
    match text {
        Some(text) => Some(text@),
        None => None,
    }
}

/// The numerals of an optional color.
pub open spec fn color_view(color: Option<Color>) -> Option<ColorView> {
    match color {
        Some(color) => Some(color@),
        None => None,
    }
}

/// The text of an optional identifier.
pub open spec fn identifier_view(identifier: Option<Identifier>) -> Option<Seq<char>> {
    match identifier {
        Some(identifier) => Some(identifier@),
        None => None,
    }
}

/// An infinite line.
#[derive(Debug, PartialEq, Eq)]
pub enum Line {
    /// A vertical line through the given `x`.
    Vertical(Number),
    /// A horizontal line through the given `y`.
    Horizontal(Number),
    /// A line through `(x, y)`, at `degrees` to the horizontal.
    Angle { x: Number, y: Number, degrees: Number },
}

/// A [`Line`] as contracts see it.
pub enum LineView {
    Vertical(Seq<char>),
    Horizontal(Seq<char>),
    Angle { x: Seq<char>, y: Seq<char>, degrees: Seq<char> },
}

impl View for Line {
    type V = LineView;

    open spec fn view(&self) -> LineView {
        match *self {
            Line::Vertical(x) => LineView::Vertical(x@),
            Line::Horizontal(y) => LineView::Horizontal(y@),
            Line::Angle { x, y, degrees } => LineView::Angle { x: x@, y: y@, degrees: degrees@ },
        }
    }
}

impl LineView {
    /// An angle, where there is one, lies between 0 and 360.
    pub open spec fn angle_in_range(self) -> bool {
        match self {
            LineView::Angle { degrees, .. } => in_full_turn(degrees),
            _ => true,
        }
    }
}

/// A guideline of a glyph.
#[derive(Debug, PartialEq, Eq)]
pub struct Guideline {
    pub line: Line,
    pub name: Option<String>,
    pub color: Option<Color>,
    pub identifier: Option<Identifier>,
}

/// A [`Guideline`] as contracts see it.
pub struct GuidelineView {
    pub line: LineView,
    pub name: Option<Seq<char>>,
    pub color: Option<ColorView>,
    pub identifier: Option<Seq<char>>,
}

impl View for Guideline {
    type V = GuidelineView;

    open spec fn view(&self) -> GuidelineView {
        GuidelineView {
            line: self.line@,
            name: text_of(self.name),
            color: color_view(self.color),
            identifier: identifier_view(self.identifier),
        }
    }
}

/// A reference point of a glyph.
#[derive(Debug, PartialEq, Eq)]
pub struct Anchor {
    pub x: Number,
    pub y: Number,
    pub name: Option<String>,
    pub color: Option<Color>,
    pub identifier: Option<Identifier>,
}

/// An [`Anchor`] as contracts see it.
pub struct AnchorView {
    pub x: Seq<char>,
    pub y: Seq<char>,
    pub name: Option<Seq<char>>,
    pub color: Option<ColorView>,
    pub identifier: Option<Seq<char>>,
}

impl View for Anchor {
    type V = AnchorView;

    open spec fn view(&self) -> AnchorView {
        AnchorView {
            x: self.x@,
            y: self.y@,
            name: text_of(self.name),
            color: color_view(self.color),
            identifier: identifier_view(self.identifier),
        }
    }
}

/// A 2 by 2 matrix and an offset.
#[derive(Debug, PartialEq, Eq)]
pub struct AffineTransform {
    pub x_scale: Number,
    pub xy_scale: Number,
    pub yx_scale: Number,
    pub y_scale: Number,
    pub x_offset: Number,
    pub y_offset: Number,
}

/// An [`AffineTransform`] as contracts see it.
pub struct TransformView {
    pub x_scale: Seq<char>,
    pub xy_scale: Seq<char>,
    pub yx_scale: Seq<char>,
    pub y_scale: Seq<char>,
    pub x_offset: Seq<char>,
    pub y_offset: Seq<char>,
}

impl View for AffineTransform {
    type V = TransformView;

    open spec fn view(&self) -> TransformView {
        TransformView {
            x_scale: self.x_scale@,
            xy_scale: self.xy_scale@,
            yx_scale: self.yx_scale@,
            y_scale: self.y_scale@,
            x_offset: self.x_offset@,
            y_offset: self.y_offset@,
        }
    }
}

impl TransformView {
    /// The transform that changes nothing.
    pub open spec fn identity() -> TransformView {
        TransformView {
            x_scale: "1"@,
            xy_scale: "0"@,
            yx_scale: "0"@,
            y_scale: "1"@,
            x_offset: "0"@,
            y_offset: "0"@,
        }
    }
}

impl AffineTransform {
    /// The transform that changes nothing.
    pub fn identity() -> (transform: AffineTransform)
        ensures
            transform@ == TransformView::identity(),
    {
        AffineTransform {
            x_scale: Number::one(),
            xy_scale: Number::zero(),
            yx_scale: Number::zero(),
            y_scale: Number::one(),
            x_offset: Number::zero(),
            y_offset: Number::zero(),
        }
    }
}

/// A picture behind a glyph.
#[derive(Debug, PartialEq, Eq)]
pub struct Image {
    /// The path of the picture file, relative to the glyph's file.
    pub file_name: String,
    pub color: Option<Color>,
    pub transform: AffineTransform,
}

/// An [`Image`] as contracts see it.
pub struct ImageView {
    pub file_name: Seq<char>,
    pub color: Option<ColorView>,
    pub transform: TransformView,
}

impl View for Image {
    type V = ImageView;

    open spec fn view(&self) -> ImageView {
        ImageView {
            file_name: self.file_name@,
            color: color_view(self.color),
            transform: self.transform@,
        }
    }
}

/// A glyph, as one document describes it.
#[derive(Debug, PartialEq)]
pub struct Glyph {
    pub name: String,
    pub format: GlifVersion,
    pub format_minor: u32,
    pub height: Number,
    pub width: Number,
    pub codepoints: Vec<char>,
    pub anchors: Vec<Anchor>,
    pub guidelines: Vec<Guideline>,
    pub image: Option<Image>,
    pub note: Option<String>,
    pub lib: Option<plist::Dictionary>,
}

/// A [`Glyph`] as contracts see it: every number the numeral that spells it,
/// every character its scalar value.
pub struct GlyphView {
    pub name: Seq<char>,
    pub format: GlifVersion,
    pub format_minor: u32,
    pub height: Seq<char>,
    pub width: Seq<char>,
    /// The scalar values of the characters.
    pub codepoints: Seq<u32>,
    pub anchors: Seq<AnchorView>,
    pub guidelines: Seq<GuidelineView>,
    pub image: Option<ImageView>,
    pub note: Option<Seq<char>>,
    pub lib: Option<plist::Dictionary>,
}

impl View for Glyph {
    type V = GlyphView;

    open spec fn view(&self) -> GlyphView {
        GlyphView {
            name: self.name@,
            format: self.format,
            format_minor: self.format_minor,
            height: self.height@,
            width: self.width@,
            codepoints: self.codepoints@.map_values(|c: char| c as u32),
            anchors: self.anchors@.map_values(|anchor: Anchor| anchor@),
            guidelines: self.guidelines@.map_values(|guideline: Guideline| guideline@),
            image: match self.image {
                Some(image) => Some(image@),
                None => None,
            },
            note: text_of(self.note),
            lib: self.lib,
        }
    }
}

impl GlyphView {
    /// A glyph that has a name and a version and nothing else.
    pub open spec fn named(name: Seq<char>, format: GlifVersion, format_minor: u32) -> GlyphView {
        GlyphView {
            name,
            format,
            format_minor,
            height: "0"@,
            width: "0"@,
            codepoints: Seq::empty(),
            anchors: Seq::empty(),
            guidelines: Seq::empty(),
            image: None,
            note: None,
            lib: None,
        }
    }

    /// With one more character, after those that it has.
    pub open spec fn with_codepoint(self, scalar: u32) -> GlyphView {
        GlyphView { codepoints: self.codepoints.push(scalar), ..self }
    }

    /// With one more anchor, after those that it has.
    pub open spec fn with_anchor(self, anchor: AnchorView) -> GlyphView {
        GlyphView { anchors: self.anchors.push(anchor), ..self }
    }

    /// With one more guideline, after those that it has.
    pub open spec fn with_guideline(self, guideline: GuidelineView) -> GlyphView {
        GlyphView { guidelines: self.guidelines.push(guideline), ..self }
    }

    /// With this height and width.
    pub open spec fn with_advance(self, height: Seq<char>, width: Seq<char>) -> GlyphView {
        GlyphView { height, width, ..self }
    }

    /// With this image.
    pub open spec fn with_image(self, image: ImageView) -> GlyphView {
        GlyphView { image: Some(image), ..self }
    }

    /// With this note.
    pub open spec fn with_note(self, note: Seq<char>) -> GlyphView {
        GlyphView { note: Some(note), ..self }
    }

    /// With this property dictionary.
    pub open spec fn with_lib(self, lib: plist::Dictionary) -> GlyphView {
        GlyphView { lib: Some(lib), ..self }
    }

    /// The identifiers of the anchors and guidelines of the glyph.
    pub open spec fn identifiers(self) -> Set<Seq<char>> {
        Set::new(
            |text: Seq<char>|
                (exists|i: int|
                    0 <= i < self.anchors.len() && (#[trigger] self.anchors[i]).identifier == Some(
                        text,
                    )) || (exists|i: int|
                    0 <= i < self.guidelines.len() && (#[trigger] self.guidelines[i]).identifier
                        == Some(text)),
        )
    }

    /// No two anchors or guidelines have the same identifier.
    pub open spec fn identifiers_differ(self) -> bool {
        &&& forall|i: int, j: int|
            0 <= i < j < self.anchors.len() && (#[trigger] self.anchors[i]).identifier is Some
                ==> self.anchors[i].identifier != (#[trigger] self.anchors[j]).identifier
        &&& forall|i: int, j: int|
            0 <= i < j < self.guidelines.len() && (#[trigger] self.guidelines[i]).identifier
                is Some ==> self.guidelines[i].identifier != (
            #[trigger] self.guidelines[j]).identifier
        &&& forall|i: int, j: int|
            0 <= i < self.anchors.len() && 0 <= j < self.guidelines.len() && (
            #[trigger] self.anchors[i]).identifier is Some ==> self.anchors[i].identifier != (
            #[trigger] self.guidelines[j]).identifier
    }

    /// What holds of every glyph that a document can describe: it has a
    /// name; its identifiers can serve as such and differ from one another,
    /// and under version 1 of the format there are none; the angle of every
    /// guideline lies between 0 and 360.
    pub open spec fn well_formed(self) -> bool {
        &&& self.name.len() > 0
        &&& forall|text: Seq<char>| #[trigger] self.identifiers().contains(text) ==> is_identifier(text)
        &&& self.identifiers_differ()
        &&& self.format == GlifVersion::V1 ==> self.identifiers() =~= Set::empty()
        &&& forall|i: int|
            0 <= i < self.guidelines.len() ==> (#[trigger] self.guidelines[i]).line.angle_in_range()
    }
}

} // verus!
