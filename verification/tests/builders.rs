use glif_parser::elements::{
    parse_advance, parse_anchor, parse_glyph, parse_guideline, parse_image, parse_unicode,
};
use glif_parser::glyph::{GlifVersion, Line};
use glif_parser::identifier::IdentifierSet;
use glif_parser::machine::{decide, Action, Phase, Seen, Token};
use glif_parser::xml::{
    attribute_name, element_name, Attribute, AttributeList, AttributeName, ElementName,
};
use glif_parser::dictionary::lib_from_span;
use glif_parser::{Error, ErrorKind};

fn attributes(pairs: &[(&str, &str)]) -> AttributeList {
    AttributeList {
        items: pairs
            .iter()
            .map(|(key, value)| Attribute { key: key.as_bytes().to_vec(), value: value.to_string() })
            .collect(),
        failure: None,
    }
}

fn flaw<T: std::fmt::Debug>(result: Result<T, Error>) -> ErrorKind {
    match result {
        Err(Error::Parse(kind)) => kind,
        other => panic!("expected a broken rule, got {:?}", other),
    }
}

fn guideline(pairs: &[(&str, &str)]) -> Result<Line, Error> {
    let mut seen = IdentifierSet::new();
    parse_guideline(attributes(pairs), &mut seen, &GlifVersion::V2).map(|g| g.line)
}

#[test]
fn guideline_shapes() {
    match guideline(&[("x", "1")]).unwrap() {
        Line::Vertical(x) => assert_eq!(x.as_str(), "1"),
        other => panic!("{:?}", other),
    }
    match guideline(&[("y", "2")]).unwrap() {
        Line::Horizontal(y) => assert_eq!(y.as_str(), "2"),
        other => panic!("{:?}", other),
    }
    match guideline(&[("x", "1"), ("y", "2"), ("angle", "30")]).unwrap() {
        Line::Angle { x, y, degrees } => {
            assert_eq!((x.as_str(), y.as_str(), degrees.as_str()), ("1", "2", "30"))
        }
        other => panic!("{:?}", other),
    }
    match guideline(&[("angle", "30"), ("y", "2"), ("x", "1")]).unwrap() {
        Line::Angle { x, y, degrees } => {
            assert_eq!((x.as_str(), y.as_str(), degrees.as_str()), ("1", "2", "30"))
        }
        other => panic!("{:?}", other),
    }
}

#[test]
fn guideline_shapes_that_are_no_line() {
    assert!(matches!(flaw(guideline(&[])), ErrorKind::InvalidGuideline));
    assert!(matches!(flaw(guideline(&[("x", "1"), ("y", "2")])), ErrorKind::InvalidGuideline));
    assert!(matches!(flaw(guideline(&[("x", "1"), ("angle", "3")])), ErrorKind::InvalidGuideline));
    assert!(matches!(flaw(guideline(&[("y", "1"), ("angle", "3")])), ErrorKind::InvalidGuideline));
    assert!(matches!(flaw(guideline(&[("angle", "3")])), ErrorKind::InvalidGuideline));
    assert!(matches!(flaw(guideline(&[("name", "n")])), ErrorKind::InvalidGuideline));
}

#[test]
fn guideline_angles() {
    let with_angle = |angle: &str| guideline(&[("x", "1"), ("y", "2"), ("angle", angle)]);
    assert!(with_angle("0").is_ok());
    assert!(with_angle("360").is_ok());
    assert!(with_angle("359.99").is_ok());
    assert!(matches!(flaw(with_angle("360.1")), ErrorKind::InvalidAngle));
    assert!(matches!(flaw(with_angle("-0.1")), ErrorKind::InvalidAngle));
    assert!(matches!(flaw(with_angle("nan")), ErrorKind::InvalidAngle));
    assert!(matches!(flaw(with_angle("inf")), ErrorKind::InvalidAngle));
    assert!(matches!(flaw(with_angle("x")), ErrorKind::InvalidNumber(_)));
    // The angle is held to its range where it stands, before the shape is looked at.
    assert!(matches!(flaw(guideline(&[("angle", "400")])), ErrorKind::InvalidAngle));
    assert!(matches!(
        flaw(guideline(&[("angle", "400"), ("foo", "1")])),
        ErrorKind::InvalidAngle
    ));
    assert!(matches!(
        flaw(guideline(&[("foo", "1"), ("angle", "400")])),
        ErrorKind::UnexpectedAttribute
    ));
}

#[test]
fn guideline_fields() {
    let mut seen = IdentifierSet::new();
    let guideline = parse_guideline(
        attributes(&[("name", "baseline"), ("x", "0.1"), ("color", "0,1,0,1"), ("identifier", "g2")]),
        &mut seen,
        &GlifVersion::V2,
    )
    .unwrap();
    assert_eq!(guideline.name.as_deref(), Some("baseline"));
    assert_eq!(guideline.color.unwrap().green.as_str(), "1");
    assert_eq!(guideline.identifier.unwrap().as_str(), "g2");
    assert!(seen.contains("g2"));
}

#[test]
fn anchor_fields() {
    let mut seen = IdentifierSet::new();
    let anchor = parse_anchor(
        attributes(&[("name", "top"), ("x", "74"), ("y", "197"), ("color", "0,0,0,0"), ("identifier", "a1")]),
        &mut seen,
        &GlifVersion::V2,
    )
    .unwrap();
    assert_eq!(anchor.x.as_str(), "74");
    assert_eq!(anchor.y.as_str(), "197");
    assert_eq!(anchor.name.as_deref(), Some("top"));
    assert_eq!(anchor.color.unwrap().alpha.as_str(), "0");
    assert_eq!(anchor.identifier.unwrap().as_str(), "a1");
    assert!(seen.contains("a1"));

    let anchor = parse_anchor(attributes(&[("y", "2"), ("x", "1")]), &mut seen, &GlifVersion::V1).unwrap();
    assert_eq!((anchor.x.as_str(), anchor.y.as_str()), ("1", "2"));
    assert_eq!(anchor.name, None);
    assert_eq!(anchor.color, None);
    assert_eq!(anchor.identifier, None);
}

#[test]
fn anchor_rules() {
    let mut seen = IdentifierSet::new();
    let v2 = GlifVersion::V2;
    assert!(matches!(flaw(parse_anchor(attributes(&[("x", "1")]), &mut seen, &v2)), ErrorKind::InvalidAnchor));
    assert!(matches!(flaw(parse_anchor(attributes(&[("y", "1")]), &mut seen, &v2)), ErrorKind::InvalidAnchor));
    assert!(matches!(flaw(parse_anchor(attributes(&[]), &mut seen, &v2)), ErrorKind::InvalidAnchor));
    assert!(matches!(
        flaw(parse_anchor(attributes(&[("x", "1"), ("y", "2"), ("angle", "3")]), &mut seen, &v2)),
        ErrorKind::UnexpectedAttribute
    ));
    assert!(matches!(
        flaw(parse_anchor(attributes(&[("x", "1"), ("y", "two")]), &mut seen, &v2)),
        ErrorKind::InvalidNumber(_)
    ));
    assert!(matches!(
        flaw(parse_anchor(attributes(&[("x", "1"), ("y", "2"), ("color", "red")]), &mut seen, &v2)),
        ErrorKind::InvalidColor
    ));
    assert!(matches!(
        flaw(parse_anchor(attributes(&[("x", "1"), ("y", "2"), ("identifier", "\u{0}")]), &mut seen, &v2)),
        ErrorKind::BadIdentifier
    ));
    assert!(matches!(
        flaw(parse_anchor(attributes(&[("x", "1"), ("y", "2"), ("identifier", "i")]), &mut seen, &GlifVersion::V1)),
        ErrorKind::UnexpectedAttribute
    ));
    assert!(!seen.contains("i"));
    assert!(parse_anchor(attributes(&[("x", "1"), ("y", "2"), ("identifier", "i")]), &mut seen, &v2).is_ok());
    assert!(matches!(
        flaw(parse_anchor(attributes(&[("x", "1"), ("y", "2"), ("identifier", "i")]), &mut seen, &v2)),
        ErrorKind::DuplicateIdentifier
    ));
}

#[test]
fn advance_fields() {
    let (height, width) = parse_advance(attributes(&[("height", "123"), ("width", "268")])).unwrap();
    assert_eq!((height.as_str(), width.as_str()), ("123", "268"));
    let (height, width) = parse_advance(attributes(&[("width", "268")])).unwrap();
    assert_eq!((height.as_str(), width.as_str()), ("0", "268"));
    let (height, width) = parse_advance(attributes(&[])).unwrap();
    assert_eq!((height.as_str(), width.as_str()), ("0", "0"));
    assert!(matches!(flaw(parse_advance(attributes(&[("depth", "1")]))), ErrorKind::UnexpectedAttribute));
    match flaw(parse_advance(attributes(&[("width", "wide")]))) {
        ErrorKind::InvalidNumber(text) => assert_eq!(text, "wide"),
        other => panic!("{:?}", other),
    }
}

#[test]
fn unicode_fields() {
    assert_eq!(parse_unicode(attributes(&[("hex", "002E")])).unwrap(), '.');
    assert!(matches!(flaw(parse_unicode(attributes(&[]))), ErrorKind::InvalidUnicode));
    assert!(matches!(flaw(parse_unicode(attributes(&[("hex", "D800")]))), ErrorKind::InvalidCodepoint(_, _)));
    assert!(matches!(flaw(parse_unicode(attributes(&[("hexa", "41")]))), ErrorKind::UnexpectedAttribute));
}

#[test]
fn image_fields() {
    let image = parse_image(attributes(&[("fileName", "a b.png")])).unwrap();
    assert_eq!(image.file_name, "a b.png");
    assert_eq!(image.color, None);
    let t = &image.transform;
    assert_eq!(
        (
            t.x_scale.as_str(),
            t.xy_scale.as_str(),
            t.yx_scale.as_str(),
            t.y_scale.as_str(),
            t.x_offset.as_str(),
            t.y_offset.as_str()
        ),
        ("1", "0", "0", "1", "0", "0")
    );
    let image = parse_image(attributes(&[("yOffset", "7"), ("fileName", "f"), ("xyScale", "0.5"), ("color", "1,1,1,1")])).unwrap();
    let t = &image.transform;
    assert_eq!(
        (
            t.x_scale.as_str(),
            t.xy_scale.as_str(),
            t.yx_scale.as_str(),
            t.y_scale.as_str(),
            t.x_offset.as_str(),
            t.y_offset.as_str()
        ),
        ("1", "0.5", "0", "1", "0", "7")
    );
    assert!(image.color.is_some());
    let image = parse_image(attributes(&[
        ("xScale", "2"), ("xyScale", "3"), ("yxScale", "4"), ("yScale", "5"), ("xOffset", "6"), ("yOffset", "7"), ("fileName", "f"),
    ]))
    .unwrap();
    let t = &image.transform;
    assert_eq!(
        (
            t.x_scale.as_str(),
            t.xy_scale.as_str(),
            t.yx_scale.as_str(),
            t.y_scale.as_str(),
            t.x_offset.as_str(),
            t.y_offset.as_str()
        ),
        ("2", "3", "4", "5", "6", "7")
    );
}

#[test]
fn image_rules() {
    assert!(matches!(flaw(parse_image(attributes(&[]))), ErrorKind::InvalidImage));
    assert!(matches!(flaw(parse_image(attributes(&[("xScale", "2")]))), ErrorKind::InvalidImage));
    assert!(matches!(flaw(parse_image(attributes(&[("fileName", "f"), ("identifier", "i")]))), ErrorKind::UnexpectedAttribute));
    assert!(matches!(flaw(parse_image(attributes(&[("fileName", "f"), ("xScale", "big")]))), ErrorKind::InvalidNumber(_)));
    assert!(matches!(flaw(parse_image(attributes(&[("fileName", "f"), ("color", "1,2,3")]))), ErrorKind::InvalidColor));
}

#[test]
fn header_fields() {
    let glyph = parse_glyph(attributes(&[("name", "period"), ("format", "2"), ("formatMinor", "123")])).unwrap();
    assert_eq!(glyph.name, "period");
    assert_eq!(glyph.format, GlifVersion::V2);
    assert_eq!(glyph.format_minor, 123);
    assert_eq!(glyph.height.as_str(), "0");
    assert_eq!(glyph.width.as_str(), "0");
    assert!(glyph.codepoints.is_empty() && glyph.anchors.is_empty() && glyph.guidelines.is_empty());
    assert!(glyph.image.is_none() && glyph.note.is_none() && glyph.lib.is_none());
    let glyph = parse_glyph(attributes(&[("format", "1"), ("name", "a")])).unwrap();
    assert_eq!(glyph.format, GlifVersion::V1);
    assert_eq!(glyph.format_minor, 0);
}

#[test]
fn header_rules_on_attributes() {
    assert!(matches!(flaw(parse_glyph(attributes(&[("name", "a")]))), ErrorKind::InvalidGlyph));
    assert!(matches!(flaw(parse_glyph(attributes(&[("format", "2")]))), ErrorKind::InvalidGlyph));
    assert!(matches!(flaw(parse_glyph(attributes(&[("name", ""), ("format", "2")]))), ErrorKind::InvalidGlyph));
    assert!(matches!(flaw(parse_glyph(attributes(&[("name", "a"), ("format", "02")]))), ErrorKind::UnsupportedGlifVersion));
    assert!(matches!(flaw(parse_glyph(attributes(&[("name", "a"), ("format", "")]))), ErrorKind::UnsupportedGlifVersion));
    assert!(matches!(flaw(parse_glyph(attributes(&[("name", "a"), ("format", "2"), ("formatMinor", "-1")]))), ErrorKind::InvalidInteger(_, _)));
    assert!(matches!(flaw(parse_glyph(attributes(&[("Name", "a"), ("format", "2")]))), ErrorKind::UnexpectedAttribute));
}

#[test]
fn first_broken_rule_wins() {
    assert!(matches!(
        flaw(parse_advance(attributes(&[("width", "x"), ("depth", "1")]))),
        ErrorKind::InvalidNumber(_)
    ));
    assert!(matches!(
        flaw(parse_advance(attributes(&[("depth", "1"), ("width", "x")]))),
        ErrorKind::UnexpectedAttribute
    ));
}

#[test]
fn names_of_attributes_and_elements() {
    assert_eq!(attribute_name(b"x"), AttributeName::X);
    assert_eq!(attribute_name(b"y"), AttributeName::Y);
    assert_eq!(attribute_name(b"formatMinor"), AttributeName::FormatMinor);
    assert_eq!(attribute_name(b"fileName"), AttributeName::FileName);
    assert_eq!(attribute_name(b"filename"), AttributeName::Other);
    assert_eq!(attribute_name(b"X"), AttributeName::Other);
    assert_eq!(attribute_name(b""), AttributeName::Other);
    assert_eq!(attribute_name(b"xx"), AttributeName::Other);
    assert_eq!(attribute_name(&[0xff]), AttributeName::Other);
    assert_eq!(element_name(b"glyph"), ElementName::Glyph);
    assert_eq!(element_name(b"lib"), ElementName::Lib);
    assert_eq!(element_name(b"outline"), ElementName::Other);
    assert_eq!(element_name(b"Glyph"), ElementName::Other);
}

const NOTHING: Seen = Seen { advance: false, note: false, lib: false, image: false };

#[test]
fn decisions_before_the_glyph() {
    assert_eq!(decide(Phase::Start, NOTHING, Token::Start(ElementName::Glyph)), Action::BuildHeader);
    assert_eq!(decide(Phase::Start, NOTHING, Token::Empty(ElementName::Glyph)), Action::BuildHeader);
    assert_eq!(decide(Phase::Start, NOTHING, Token::Start(ElementName::Anchor)), Action::RejectFirstElement);
    assert_eq!(decide(Phase::Start, NOTHING, Token::Empty(ElementName::Other)), Action::RejectFirstElement);
    assert_eq!(decide(Phase::Start, NOTHING, Token::Comment), Action::Skip);
    assert_eq!(decide(Phase::Start, NOTHING, Token::Decl), Action::Skip);
    assert_eq!(decide(Phase::Start, NOTHING, Token::Other), Action::Skip);
    assert_eq!(decide(Phase::Start, NOTHING, Token::Eof), Action::RejectEnd);
}

#[test]
fn decisions_inside_the_glyph() {
    let all = Seen { advance: true, note: true, lib: true, image: true };
    assert_eq!(decide(Phase::InGlyph, NOTHING, Token::Empty(ElementName::Unicode)), Action::BuildUnicode);
    assert_eq!(decide(Phase::InGlyph, all, Token::Empty(ElementName::Anchor)), Action::BuildAnchor);
    assert_eq!(decide(Phase::InGlyph, all, Token::Empty(ElementName::Guideline)), Action::BuildGuideline);
    assert_eq!(decide(Phase::InGlyph, NOTHING, Token::Empty(ElementName::Advance)), Action::BuildAdvance);
    assert_eq!(decide(Phase::InGlyph, all, Token::Empty(ElementName::Advance)), Action::RejectDuplicate);
    assert_eq!(decide(Phase::InGlyph, NOTHING, Token::Start(ElementName::Note)), Action::ReadNote);
    assert_eq!(decide(Phase::InGlyph, all, Token::Start(ElementName::Note)), Action::RejectDuplicate);
    assert_eq!(decide(Phase::InGlyph, NOTHING, Token::Start(ElementName::Lib)), Action::ReadLib);
    assert_eq!(decide(Phase::InGlyph, all, Token::Start(ElementName::Lib)), Action::RejectDuplicate);
    assert_eq!(decide(Phase::InGlyph, NOTHING, Token::Empty(ElementName::Image)), Action::BuildImage);
    assert_eq!(decide(Phase::InGlyph, all, Token::Empty(ElementName::Image)), Action::RejectDuplicate);
    assert_eq!(decide(Phase::InGlyph, all, Token::End(ElementName::Glyph)), Action::Close);
    assert_eq!(decide(Phase::InGlyph, all, Token::Eof), Action::RejectEnd);
    assert_eq!(decide(Phase::InGlyph, all, Token::Start(ElementName::Unicode)), Action::Skip);
    assert_eq!(decide(Phase::InGlyph, all, Token::Empty(ElementName::Note)), Action::Skip);
    assert_eq!(decide(Phase::InGlyph, all, Token::Start(ElementName::Other)), Action::Skip);
    assert_eq!(decide(Phase::InGlyph, all, Token::End(ElementName::Other)), Action::Skip);
    assert_eq!(decide(Phase::InGlyph, all, Token::Other), Action::Skip);
    assert_eq!(decide(Phase::InGlyph, all, Token::Comment), Action::Skip);
}

#[test]
fn decisions_after_the_glyph() {
    assert_eq!(decide(Phase::Done, NOTHING, Token::Eof), Action::Finish);
    assert_eq!(decide(Phase::Done, NOTHING, Token::Comment), Action::Skip);
    assert_eq!(decide(Phase::Done, NOTHING, Token::Decl), Action::Skip);
    assert_eq!(decide(Phase::Done, NOTHING, Token::Other), Action::RejectTrailing);
    assert_eq!(decide(Phase::Done, NOTHING, Token::Start(ElementName::Glyph)), Action::RejectTrailing);
    assert_eq!(decide(Phase::Done, NOTHING, Token::Empty(ElementName::Anchor)), Action::RejectTrailing);
    assert_eq!(decide(Phase::Done, NOTHING, Token::End(ElementName::Glyph)), Action::RejectTrailing);
}

#[test]
fn lib_spans() {
    let xml = b"<lib><dict><key>k</key><true/></dict></lib>";
    let lib = lib_from_span(xml, 5, xml.len()).unwrap();
    assert_eq!(lib.get("k").and_then(|v| v.as_boolean()), Some(true));
    let lib = lib_from_span(xml, 5, xml.len() - 6).unwrap();
    assert_eq!(lib.len(), 1);
    assert!(matches!(lib_from_span(xml, 6, xml.len()), Err(Error::Parse(ErrorKind::ParsePlist(_)))));
    assert!(matches!(lib_from_span(xml, 5, 5), Err(Error::Parse(ErrorKind::ParsePlist(_)))));
    assert!(matches!(lib_from_span(xml, 7, 5), Err(Error::Parse(ErrorKind::UnexpectedEof))));
    assert!(matches!(lib_from_span(xml, 5, xml.len() + 1), Err(Error::Parse(ErrorKind::UnexpectedEof))));
    let xml = b"<string>s</string>";
    assert!(matches!(lib_from_span(xml, 0, xml.len()), Err(Error::Parse(ErrorKind::LibMustBeDictionary))));
}
