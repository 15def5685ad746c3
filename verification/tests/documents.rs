use glif_parser::glyph::{
    AffineTransform, Anchor, GlifVersion, Guideline, Image, Line,
};
use glif_parser::identifier::Identifier;
use glif_parser::number::Number;
use glif_parser::primitive::Color;
use glif_parser::{parse_glif, Error, ErrorKind};

fn number(text: &str) -> Number {
    Number::read(text).unwrap()
}

fn value(number: &Number) -> f64 {
    number.as_str().parse().unwrap()
}

fn color(red: &str, green: &str, blue: &str, alpha: &str) -> Color {
    Color { red: number(red), green: number(green), blue: number(blue), alpha: number(alpha) }
}

fn kind(xml: &str) -> ErrorKind {
    match parse_glif(xml.as_bytes()) {
        Err(Error::Parse(kind)) => kind,
        other => panic!("expected a broken rule, got {:?}", other),
    }
}

const FULL: &str = r#"<?xml version="1.0" encoding="UTF-8"?>
        <glyph name="period" format="2" formatMinor="123">
            <unicode hex="002E"/>
            <unicode hex="04D2"/>
            <advance height="123" width="268"/>
            <image fileName="period sketch.png" xScale="0.5" xyScale="0.5" yxScale="0.5" yScale="0.5" xOffset="0.5" yOffset="0.5" color="1,0,0,0.5"/>
            <outline>
                <contour identifier="vMlVuTQd4d">
                    <point x="237" y="152"/>
                    <point x="193" y="187"/>
                    <point x="134" y="187" type="curve" smooth="yes" identifier="KN3WZjorob"/>
                    <point x="74" y="187"/>
                    <point x="30" y="150"/>
                    <point name="median" x="30" y="88" type="curve" smooth="yes"/>
                    <point x="30" y="23"/>
                    <point x="74.123" y="-10.456"/>
                    <point x="134" y="-10" type="curve" smooth="yes"/>
                    <point x="193" y="-10"/>
                    <point x="237" y="25"/>
                    <point name="end" x="237" y="88" type="curve" smooth="yes" identifier="h0ablXAzTg"/>
                </contour>
                <component base="A" identifier="c1"/>
                <component base="A" xScale="2" xyScale="2" yxScale="2" yScale="2" xOffset="2" yOffset="2" identifier="c2"/>
                <component base="A" xScale="1.234" xyScale="1.234" yxScale="1.234" yScale="1.234" xOffset="1.234" yOffset="1.234" identifier="c3"/>
            </outline>
            <anchor name="top" x="74" y="197" color="0,0,0,0" identifier="a1"/>
            <anchor name="elsewhere" x="1.234" y="5.678" color="1,0,0,1" identifier="a2"/>
            <guideline name="overshoot" y="-12" color="1,0,0,1" identifier="g1"/>
            <guideline name="baseline" x="0.1" color="0,1,0,1" identifier="g2"/>
            <guideline name="diagonals" x="100.2" y="200.4" angle="360" color="0,0,1,1" identifier="g3"/>
            <lib>
                <dict>
                    <key>com.letterror.somestuff</key>
                    <string>arbitrary custom data!</string>
                    <key>public.markColor</key>
                    <string>1,0,0,0.5</string>
                    <key>public.objectLibs</key>
                    <dict>
                        <key>KN3WZjorob</key>
                        <dict>
                            <key>com.foundry.pointColor</key>
                            <string>0,1,0,0.5</string>
                        </dict>
                        <key>a1</key>
                        <dict>
                            <key>asdf</key>
                            <integer>0</integer>
                        </dict>
                        <key>a2</key>
                        <dict>
                            <key>asdf</key>
                            <integer>1</integer>
                        </dict>
                        <key>c1</key>
                        <dict>
                            <key>asdf</key>
                            <integer>0</integer>
                        </dict>
                        <key>c2</key>
                        <dict>
                            <key>asdf</key>
                            <integer>1</integer>
                        </dict>
                        <key>c3</key>
                        <dict>
                            <key>asdf</key>
                            <integer>2</integer>
                        </dict>
                        <key>g1</key>
                        <dict>
                            <key>asdf</key>
                            <integer>0</integer>
                        </dict>
                        <key>g2</key>
                        <dict>
                            <key>asdf</key>
                            <integer>1</integer>
                        </dict>
                        <key>g3</key>
                        <dict>
                            <key>asdf</key>
                            <integer>2</integer>
                        </dict>
                        <key>h0ablXAzTg</key>
                        <dict>
                            <key>com.foundry.pointColor</key>
                            <string>1,0,0,0.5</string>
                        </dict>
                        <key>vMlVuTQd4d</key>
                        <dict>
                            <key>com.foundry.contourColor</key>
                            <string>1,0,0,0.5</string>
                        </dict>
                    </dict>
                    <key>public.postscript.hints</key>
                    <dict>
                        <key>formatVersion</key>
                        <string>1</string>
                        <key>hintSetList</key>
                        <array>
                            <dict>
                                <key>pointTag</key>
                                <string>hintSet0000</string>
                                <key>stems</key>
                                <array>
                                    <string>hstem -10 197</string>
                                    <string>vstem 30 207</string>
                                </array>
                            </dict>
                            <dict>
                                <key>pointTag</key>
                                <string>hintSet0004</string>
                                <key>stems</key>
                                <array>
                                    <string>hstem 11 -21</string>
                                    <string>vstem 30 207</string>
                                </array>
                            </dict>
                        </array>
                        <key>id</key>
                        <string>w268c237,88 237,152 193,187c134,187 74,187 30,150c30,88 30,23 74,-10c134,-10 193,-10 237,25</string>
                    </dict>
                </dict>
            </lib><note>I äm a note.</note></glyph>
        "#;

#[test]
fn parse_all() {
    let glyph = parse_glif(FULL.as_bytes()).unwrap();

    assert_eq!(glyph.name, "period");
    assert_eq!(glyph.format, GlifVersion::V2);
    assert_eq!(glyph.format_minor, 123);

    assert_eq!(value(&glyph.height), 123.0);
    assert_eq!(value(&glyph.width), 268.0);

    assert_eq!(glyph.codepoints, vec!['\u{002E}', '\u{04D2}']);

    assert_eq!(
        glyph.anchors,
        vec![
            Anchor {
                x: number("74"),
                y: number("197"),
                name: Some("top".into()),
                color: Some(color("0", "0", "0", "0")),
                identifier: Some(Identifier::new("a1").unwrap()),
            },
            Anchor {
                x: number("1.234"),
                y: number("5.678"),
                name: Some("elsewhere".into()),
                color: Some(color("1", "0", "0", "1")),
                identifier: Some(Identifier::new("a2").unwrap()),
            },
        ]
    );
    assert_eq!(value(&glyph.anchors[0].x), 74.0);
    assert_eq!(value(&glyph.anchors[0].y), 197.0);
    assert_eq!(value(&glyph.anchors[1].x), 1.234);
    assert_eq!(value(&glyph.anchors[1].y), 5.678);
    let top = glyph.anchors[0].color.as_ref().unwrap();
    assert_eq!(
        (value(&top.red), value(&top.green), value(&top.blue), value(&top.alpha)),
        (0.0, 0.0, 0.0, 0.0)
    );
    let elsewhere = glyph.anchors[1].color.as_ref().unwrap();
    assert_eq!(
        (
            value(&elsewhere.red),
            value(&elsewhere.green),
            value(&elsewhere.blue),
            value(&elsewhere.alpha)
        ),
        (1.0, 0.0, 0.0, 1.0)
    );

    assert_eq!(
        glyph.guidelines,
        vec![
            Guideline {
                line: Line::Horizontal(number("-12")),
                name: Some("overshoot".into()),
                color: Some(color("1", "0", "0", "1")),
                identifier: Some(Identifier::new("g1").unwrap()),
            },
            Guideline {
                line: Line::Vertical(number("0.1")),
                name: Some("baseline".into()),
                color: Some(color("0", "1", "0", "1")),
                identifier: Some(Identifier::new("g2").unwrap()),
            },
            Guideline {
                line: Line::Angle { x: number("100.2"), y: number("200.4"), degrees: number("360") },
                name: Some("diagonals".into()),
                color: Some(color("0", "0", "1", "1")),
                identifier: Some(Identifier::new("g3").unwrap()),
            },
        ]
    );
    match &glyph.guidelines[0].line {
        Line::Horizontal(y) => assert_eq!(value(y), -12.0),
        other => panic!("{:?}", other),
    }
    match &glyph.guidelines[1].line {
        Line::Vertical(x) => assert_eq!(value(x), 0.1),
        other => panic!("{:?}", other),
    }
    match &glyph.guidelines[2].line {
        Line::Angle { x, y, degrees } => {
            assert_eq!((value(x), value(y), value(degrees)), (100.2, 200.4, 360.0))
        }
        other => panic!("{:?}", other),
    }

    assert_eq!(
        glyph.image.unwrap(),
        Image {
            file_name: "period sketch.png".into(),
            color: Some(color("1", "0", "0", "0.5")),
            transform: AffineTransform {
                x_scale: number("0.5"),
                xy_scale: number("0.5"),
                yx_scale: number("0.5"),
                y_scale: number("0.5"),
                x_offset: number("0.5"),
                y_offset: number("0.5"),
            },
        }
    );
    assert_eq!(value(&number("0.5")), 0.5);

    let lib = glyph.lib.unwrap();
    let mut lib_keys: Vec<&str> = lib.keys().map(|s| s.as_str()).collect();
    lib_keys.sort_unstable();
    assert_eq!(
        lib_keys,
        vec![
            "com.letterror.somestuff",
            "public.markColor",
            "public.objectLibs",
            "public.postscript.hints",
        ]
    );

    assert_eq!(glyph.note, Some("I äm a note.".into()));
}

#[test]
#[should_panic(expected = "WrongFirstElement")]
fn wrong_first_element() {
    let xml = r#"<?xml version="1.0" encoding="UTF-8"?>
        <unicode hex="002E"/>
        "#;

    let _ = parse_glif(xml.as_bytes()).unwrap();
}

#[test]
#[should_panic(expected = "DuplicateElement")]
fn duplicate_note() {
    let xml = r#"<?xml version="1.0" encoding="UTF-8"?>
        <glyph name="period" format="2" formatMinor="123">
            <note>I äm a note.</note>
            <note>I äm a note.</note>
        </glyph>
        "#;

    let _ = parse_glif(xml.as_bytes()).unwrap();
}

#[test]
#[should_panic(expected = "DuplicateElement")]
fn duplicate_advance() {
    let xml = r#"<?xml version="1.0" encoding="UTF-8"?>
        <glyph name="period" format="2" formatMinor="123">
            <advance height="123" width="268"/>
            <advance height="123" width="268"/>
        </glyph>
        "#;

    let _ = parse_glif(xml.as_bytes()).unwrap();
}

#[test]
#[should_panic(expected = "DuplicateElement")]
fn duplicate_lib() {
    let xml = r#"<?xml version="1.0" encoding="UTF-8"?>
        <glyph name="period" format="2" formatMinor="123">
            <lib>
                <dict>
                        <key>formatVersion</key>
                        <string>1</string>
                </dict>
            </lib>
            <lib>
                <dict>
                        <key>formatVersion</key>
                        <string>1</string>
                </dict>
            </lib>
        </glyph>
        "#;

    let _ = parse_glif(xml.as_bytes()).unwrap();
}

#[test]
#[should_panic(expected = "TrailingData")]
fn trailing_data() {
    let xml = r#"<?xml version="1.0" encoding="UTF-8"?>
        <glyph name="period" format="2" formatMinor="123">
        </glyph>
        <unicode hex="002E"/>
        "#;

    let _ = parse_glif(xml.as_bytes()).unwrap();
}

#[test]
fn period_with_advance_and_codepoint() {
    let xml = r#"<glyph name="period" format="2"><advance height="123" width="268"/><unicode hex="002E"/></glyph>"#;
    let glyph = parse_glif(xml.as_bytes()).unwrap();
    assert_eq!(glyph.name, "period");
    assert_eq!(glyph.format, GlifVersion::V2);
    assert_eq!(glyph.format_minor, 0);
    assert_eq!(value(&glyph.height), 123.0);
    assert_eq!(value(&glyph.width), 268.0);
    assert_eq!(glyph.codepoints, vec!['\u{002E}']);
    assert!(glyph.anchors.is_empty());
    assert!(glyph.guidelines.is_empty());
    assert_eq!(glyph.image, None);
    assert_eq!(glyph.note, None);
    assert_eq!(glyph.lib, None);
}

#[test]
fn guideline_with_y_and_angle_only() {
    let xml = r#"<glyph name="x" format="2"><guideline y="-12" angle="30"/></glyph>"#;
    assert!(matches!(kind(xml), ErrorKind::InvalidGuideline));
}

#[test]
fn bare_glyph_has_defaults() {
    let glyph = parse_glif(br#"<glyph name="a" format="1"></glyph>"#).unwrap();
    assert_eq!(glyph.format, GlifVersion::V1);
    assert_eq!(glyph.height.as_str(), "0");
    assert_eq!(glyph.width.as_str(), "0");
    assert_eq!(value(&glyph.height), 0.0);
}

#[test]
fn same_identifier_on_two_anchors() {
    let xml = r#"<glyph name="a" format="2"><anchor x="1" y="2" identifier="i"/><anchor x="3" y="4" identifier="i"/></glyph>"#;
    assert!(matches!(kind(xml), ErrorKind::DuplicateIdentifier));
}

#[test]
fn same_identifier_on_anchor_and_guideline() {
    let xml = r#"<glyph name="a" format="2"><anchor x="1" y="2" identifier="i"/><guideline x="3" identifier="i"/></glyph>"#;
    assert!(matches!(kind(xml), ErrorKind::DuplicateIdentifier));
    let xml = r#"<glyph name="a" format="2"><guideline x="3" identifier="i"/><anchor x="1" y="2" identifier="i"/></glyph>"#;
    assert!(matches!(kind(xml), ErrorKind::DuplicateIdentifier));
}

#[test]
fn different_identifiers_are_kept() {
    let xml = r#"<glyph name="a" format="2"><anchor x="1" y="2" identifier="i"/><guideline x="3" identifier="j"/></glyph>"#;
    let glyph = parse_glif(xml.as_bytes()).unwrap();
    assert_eq!(glyph.anchors[0].identifier.as_ref().unwrap().as_str(), "i");
    assert_eq!(glyph.guidelines[0].identifier.as_ref().unwrap().as_str(), "j");
}

#[test]
fn identifier_under_version_1() {
    let xml = r#"<glyph name="a" format="1"><anchor x="1" y="2" identifier="i"/></glyph>"#;
    assert!(matches!(kind(xml), ErrorKind::UnexpectedAttribute));
    let xml = r#"<glyph name="a" format="1"><guideline x="1" identifier="i"/></glyph>"#;
    assert!(matches!(kind(xml), ErrorKind::UnexpectedAttribute));
    let xml = r#"<glyph name="a" format="2"><anchor x="1" y="2" identifier="i"/></glyph>"#;
    assert!(parse_glif(xml.as_bytes()).is_ok());
}

#[test]
fn bad_identifier_in_document() {
    let xml = "<glyph name=\"a\" format=\"2\"><anchor x=\"1\" y=\"2\" identifier=\"\u{e9}\"/></glyph>";
    assert!(matches!(kind(xml), ErrorKind::BadIdentifier));
    let xml = r#"<glyph name="a" format="2"><anchor x="1" y="2" identifier=""/></glyph>"#;
    assert!(matches!(kind(xml), ErrorKind::BadIdentifier));
}

#[test]
fn one_of_each_single_element() {
    let xml = r#"<glyph name="a" format="2"><advance width="1"/><lib><dict><key>k</key><string>v</string></dict></lib><note>n</note><image fileName="f.png"/></glyph>"#;
    let glyph = parse_glif(xml.as_bytes()).unwrap();
    assert_eq!(glyph.width.as_str(), "1");
    assert_eq!(glyph.height.as_str(), "0");
    assert_eq!(glyph.note.as_deref(), Some("n"));
    assert_eq!(glyph.image.unwrap().file_name, "f.png");
    let lib = glyph.lib.unwrap();
    assert_eq!(lib.len(), 1);
    assert_eq!(lib.get("k").and_then(|v| v.as_string()), Some("v"));
}

#[test]
fn duplicate_image() {
    let xml = r#"<glyph name="a" format="2"><image fileName="f.png"/><image fileName="g.png"/></glyph>"#;
    assert!(matches!(kind(xml), ErrorKind::DuplicateElement));
}

#[test]
fn duplicate_advance_even_if_empty() {
    let xml = r#"<glyph name="a" format="2"><advance/><advance/></glyph>"#;
    assert!(matches!(kind(xml), ErrorKind::DuplicateElement));
}

#[test]
fn first_element_must_be_glyph() {
    assert!(matches!(kind("<font/>"), ErrorKind::WrongFirstElement));
    assert!(matches!(kind("<font><glyph name=\"a\" format=\"2\"></glyph></font>"), ErrorKind::WrongFirstElement));
    assert!(matches!(kind("<!-- c --><anchor x=\"1\" y=\"2\"/>"), ErrorKind::WrongFirstElement));
}

#[test]
fn trailing_content_after_glyph() {
    let glyph = r#"<glyph name="a" format="2"></glyph>"#;
    assert!(matches!(kind(&format!("{}<glyph name=\"b\" format=\"2\"></glyph>", glyph)), ErrorKind::TrailingData));
    assert!(matches!(kind(&format!("{}<a/>", glyph)), ErrorKind::TrailingData));
    assert!(matches!(kind(&format!("{}text", glyph)), ErrorKind::TrailingData));
    assert!(parse_glif(format!("{}<!-- comment -->\n", glyph).as_bytes()).is_ok());
}

#[test]
fn document_ends_early() {
    assert!(matches!(kind(""), ErrorKind::UnexpectedEof));
    assert!(matches!(kind("<?xml version=\"1.0\"?>"), ErrorKind::UnexpectedEof));
    assert!(matches!(kind(r#"<glyph name="a" format="2"/>"#), ErrorKind::UnexpectedEof));
}

#[test]
fn unclosed_glyph_is_an_xml_error_or_early_end() {
    let result = parse_glif(br#"<glyph name="a" format="2"><anchor x="1" y="2"/>"#);
    assert!(matches!(result, Err(Error::Parse(ErrorKind::UnexpectedEof))));
    let result = parse_glif(br#"<glyph name="a" format="2"></glif>"#);
    assert!(matches!(result, Err(Error::Xml(_))));
}

#[test]
fn header_rules() {
    assert!(matches!(kind(r#"<glyph format="2"></glyph>"#), ErrorKind::InvalidGlyph));
    assert!(matches!(kind(r#"<glyph name="" format="2"></glyph>"#), ErrorKind::InvalidGlyph));
    assert!(matches!(kind(r#"<glyph name="a"></glyph>"#), ErrorKind::InvalidGlyph));
    assert!(matches!(kind(r#"<glyph name="a" format="3"></glyph>"#), ErrorKind::UnsupportedGlifVersion));
    assert!(matches!(kind(r#"<glyph name="a" format="2" other="1"></glyph>"#), ErrorKind::UnexpectedAttribute));
    match kind(r#"<glyph name="a" format="2" formatMinor="x1"></glyph>"#) {
        ErrorKind::InvalidInteger(text, _) => assert_eq!(text, "x1"),
        other => panic!("{:?}", other),
    }
}

#[test]
fn malformed_attributes_are_xml_errors() {
    let result = parse_glif(br#"<glyph name="a" format="2"><anchor x="1" x="2" y="3"/></glyph>"#);
    assert!(matches!(result, Err(Error::Xml(_))));
    let result = parse_glif(br#"<glyph name="a" format="2"><anchor x=1 y="3"/></glyph>"#);
    assert!(matches!(result, Err(Error::Xml(_))));
    // An earlier broken rule wins over a later error of the tokenizer.
    let result = parse_glif(br#"<glyph name="a" format="2"><anchor foo="1" x=1/></glyph>"#);
    assert!(matches!(result, Err(Error::Parse(ErrorKind::UnexpectedAttribute))));
}

#[test]
fn escaped_values_are_unescaped() {
    let xml = r#"<glyph name="a&amp;b" format="2"><anchor x="1" y="2" name="&lt;top&gt;"/><note>x &amp; y</note></glyph>"#;
    let glyph = parse_glif(xml.as_bytes()).unwrap();
    assert_eq!(glyph.name, "a&b");
    assert_eq!(glyph.anchors[0].name.as_deref(), Some("<top>"));
    assert_eq!(glyph.note.as_deref(), Some("x & y"));
}

#[test]
fn unknown_elements_are_passed_over() {
    let xml = r#"<glyph name="a" format="2"><outline><contour><point x="1" y="2"/></contour></outline><unicode hex="41"></unicode><note/></glyph>"#;
    let glyph = parse_glif(xml.as_bytes()).unwrap();
    assert!(glyph.codepoints.is_empty());
    assert_eq!(glyph.note, None);
}

#[test]
fn empty_note() {
    let xml = r#"<glyph name="a" format="2"><note></note></glyph>"#;
    let glyph = parse_glif(xml.as_bytes()).unwrap();
    assert_eq!(glyph.note.as_deref(), Some(""));
}

#[test]
fn lib_must_be_a_dictionary() {
    let xml = r#"<glyph name="a" format="2"><lib><string>s</string></lib></glyph>"#;
    assert!(matches!(kind(xml), ErrorKind::LibMustBeDictionary));
    let xml = r#"<glyph name="a" format="2"><lib><array><string>s</string></array></lib></glyph>"#;
    assert!(matches!(kind(xml), ErrorKind::LibMustBeDictionary));
}

#[test]
fn lib_must_be_a_property_list() {
    let xml = r#"<glyph name="a" format="2"><lib><dict><foo/></dict></lib></glyph>"#;
    assert!(matches!(kind(xml), ErrorKind::ParsePlist(_)));
}

#[test]
fn lib_is_what_the_parser_makes_of_the_same_bytes() {
    let inner = "\n  <dict>\n    <key>a</key><integer>1</integer>\n    <key>b &amp; c</key><array><real>1.5</real><string>x</string></array>\n  </dict>\n";
    let xml = format!(r#"<glyph name="a" format="2"><anchor x="1" y="2"/><lib>{}</lib><note>n</note></glyph>"#, inner);
    let glyph = parse_glif(xml.as_bytes()).unwrap();
    let start = xml.find("<lib>").unwrap() + "<lib>".len();
    let end = xml.find("</lib>").unwrap() + "</lib>".len();
    let direct = plist::Value::from_reader_xml(&xml.as_bytes()[start..end])
        .unwrap()
        .into_dictionary()
        .unwrap();
    assert_eq!(glyph.lib, Some(direct));
    let lib = glyph.lib.unwrap();
    let keys: Vec<&str> = lib.keys().map(|k| k.as_str()).collect();
    assert_eq!(keys, vec!["a", "b & c"]);
    assert_eq!(lib.get("a").and_then(|v| v.as_unsigned_integer()), Some(1));
}

#[test]
fn the_same_document_gives_the_same_outcome() {
    let documents = [
        FULL,
        r#"<glyph name="a" format="2"><anchor x="1" y="2" identifier="i"/><anchor x="3" y="4" identifier="i"/></glyph>"#,
        r#"<glyph name="a" format="2"><lib><dict><foo/></dict></lib></glyph>"#,
        r#"<glyph name="a" format="2"></glif>"#,
        "",
    ];
    for xml in documents {
        let first = parse_glif(xml.as_bytes());
        let second = parse_glif(xml.as_bytes());
        assert_eq!(format!("{:?}", first), format!("{:?}", second));
        if let (Ok(first), Ok(second)) = (first, second) {
            assert_eq!(first, second);
        }
    }
}

#[test]
fn elements_keep_the_order_of_the_document() {
    let xml = r#"<glyph name="a" format="2">
        <unicode hex="62"/><anchor x="1" y="1" name="first"/><guideline x="1" name="g1"/>
        <unicode hex="61"/><guideline y="2" name="g2"/><anchor x="2" y="2" name="second"/>
        <unicode hex="62"/><anchor x="3" y="3" name="third"/>
    </glyph>"#;
    let glyph = parse_glif(xml.as_bytes()).unwrap();
    assert_eq!(glyph.codepoints, vec!['b', 'a', 'b']);
    let anchors: Vec<&str> = glyph.anchors.iter().map(|a| a.name.as_deref().unwrap()).collect();
    assert_eq!(anchors, vec!["first", "second", "third"]);
    let guidelines: Vec<&str> = glyph.guidelines.iter().map(|g| g.name.as_deref().unwrap()).collect();
    assert_eq!(guidelines, vec!["g1", "g2"]);
}

#[test]
fn many_attributes_are_read_in_their_order() {
    let xml = r#"<glyph name="a" format="2"><image xScale="1" xyScale="2" yxScale="3" yScale="4" xOffset="5" yOffset="6" color="0,0,0,0" fileName="f" extra="1"/></glyph>"#;
    assert!(matches!(kind(xml), ErrorKind::UnexpectedAttribute));
    let xml = r#"<glyph name="a" format="2"><image extra="1" xScale="x"/></glyph>"#;
    assert!(matches!(kind(xml), ErrorKind::UnexpectedAttribute));
    let xml = r#"<glyph name="a" format="2"><image xScale="x" extra="1"/></glyph>"#;
    assert!(matches!(kind(xml), ErrorKind::InvalidNumber(_)));
}

#[test]
fn dates_at_the_edge_of_the_calendar() {
    for date in [
        "9999-12-31T23:59:59-01:00",
        "9999-12-31T23:59:59-23:59",
        "9999-12-31T23:59:59Z",
        "0000-01-01T00:00:00+23:59",
        "0000-01-01T00:00:00Z",
        "2001-01-01T00:00:00Z",
    ] {
        let xml = format!(
            r#"<glyph name="a" format="2"><lib><dict><key>k</key><date>{}</date></dict></lib></glyph>"#,
            date
        );
        let glyph = parse_glif(xml.as_bytes()).unwrap();
        let lib = glyph.lib.unwrap();
        assert!(lib.get("k").and_then(|value| value.as_date()).is_some(), "{}", date);
    }
    let xml = r#"<glyph name="a" format="2"><lib><dict><key>k</key><date>10000-01-01T00:00:00Z</date></dict></lib></glyph>"#;
    assert!(matches!(kind(xml), ErrorKind::ParsePlist(_)));
    let xml = r#"<glyph name="a" format="2"><lib><dict><key>k</key><date>yesterday</date></dict></lib></glyph>"#;
    assert!(matches!(kind(xml), ErrorKind::ParsePlist(_)));
}

#[test]
fn the_failure_of_the_dictionary_parser_is_handed_on() {
    let inner = "<dict><foo/></dict>";
    let xml = format!(r#"<glyph name="a" format="2"><lib>{}</lib></glyph>"#, inner);
    let direct = plist::Value::from_reader_xml(format!("{}</lib>", inner).as_bytes()).unwrap_err();
    match kind(&xml) {
        ErrorKind::ParsePlist(cause) => assert_eq!(format!("{:?}", cause.0), format!("{:?}", direct)),
        other => panic!("{:?}", other),
    }
}
