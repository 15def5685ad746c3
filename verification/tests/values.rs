use glif_parser::error::CodepointCause;
use glif_parser::identifier::{parse_identifier, Identifier, IdentifierSet};
use glif_parser::glyph::GlifVersion;
use glif_parser::number::{parse_number, Number};
use glif_parser::primitive::{parse_color, parse_integer};
use glif_parser::{parse_codepoint, Error, ErrorKind};

fn float_of(text: &str) -> Option<f64> {
    text.parse::<f64>().ok()
}

#[test]
fn numbers_follow_the_float_grammar() {
    let texts = [
        "0", "1", "-1", "+1", "123", "0123", "1.5", "-1.5", "+1.5", ".5", "5.", "-.5", "+5.", "1e5",
        "1E5", "1e+5", "1e-5", "1.e5", ".5e5", "1.5E-10", "0.0000", "-0", "-0.0", "1e999", "1e-999",
        "1e99999999999999999999999999999999999999999", "inf", "+inf", "-inf", "Inf", "INF",
        "infinity", "Infinity", "-INFINITY", "+InFiNiTy", "nan", "NaN", "-nan", "+NAN",
        "123456789012345678901234567890.123456789012345678901234567890",
        // no numbers
        "", " ", "+", "-", ".", "e5", "E5", ".e5", "1e", "1e+", "1e-", "1e5.0", "1.5.5", "1,5",
        " 1", "1 ", "1_000", "0x10", "--1", "+-1", "1-", "1e5e5", "in", "infinit", "infinityy",
        "na", "nann", "i", "１２", "1\u{661}", "١", "1f", "1.0f64", "∞", "é", "+.", "-e1", "nan1",
        "inf.", "1 e5", "1e 5", "١e5",
    ];
    for text in texts {
        assert_eq!(
            Number::read(text).is_some(),
            float_of(text).is_some(),
            "the grammar and the float parser disagree on {:?}",
            text
        );
        assert_eq!(parse_number(text).is_ok(), float_of(text).is_some(), "{:?}", text);
    }
}

#[test]
fn numbers_keep_their_text() {
    for text in ["0", "268", "-10.456", "1e5", "+.5", "NaN", "-Infinity"] {
        let number = parse_number(text).unwrap();
        assert_eq!(number.as_str(), text);
    }
    assert_eq!(Number::zero().as_str(), "0");
    assert_eq!(Number::one().as_str(), "1");
    assert_eq!(Number::zero(), Number::read("0").unwrap());
    assert_ne!(Number::zero(), Number::one());
}

#[test]
fn invalid_number_keeps_the_text() {
    match parse_number("12x") {
        Err(Error::Parse(ErrorKind::InvalidNumber(text))) => assert_eq!(text, "12x"),
        other => panic!("{:?}", other),
    }
    assert!(matches!(parse_number(""), Err(Error::Parse(ErrorKind::InvalidNumber(_)))));
}

fn in_turn(text: &str) -> bool {
    Number::read(text).unwrap().is_in_full_turn()
}

#[test]
fn full_turn_boundaries() {
    assert!(in_turn("0"));
    assert!(in_turn("360"));
    assert!(!in_turn("360.1"));
    assert!(!in_turn("-0.1"));
}

#[test]
fn full_turn_inside() {
    for text in [
        "0", "0.0", "-0", "-0.0", "+0", "000", "0e10", "0e-10", "-0e99999999999999999999999",
        "1", "30", "90", "359", "359.999999999999999999999", "360", "360.", "360.0", "360.000",
        "0360", "+360", "3.6e2", "36e1", "3600e-1", "0.36e3", ".36e3", "360e0", "360e-0",
        "36000000000000000000000000e-23", "0.000000000000000000000036e25", "1e-999",
        "1e-99999999999999999999999999999999999", "1e2", "100", "99.5", "3.59e2",
        "12345678901234567890e-18", "0.1", ".1", "1.", "2e0",
    ] {
        assert!(in_turn(text), "{:?} lies in the full turn", text);
        let float = float_of(text).unwrap();
        assert!((0.0..=360.0).contains(&float), "{:?}", text);
    }
}

#[test]
fn full_turn_outside() {
    for text in [
        "360.1", "-0.1", "361", "360.000000000001", "360.0001", "3.601e2", "3.7e2", "1e3", "1000",
        "0.1e4", "400", "-1", "-360", "-1e-5", "-0.000001", "36e2", "3600", "361e0", "3610e-1",
        "1e99999999999999999999999999999999999", "9999999999999999999999999999", "inf", "-inf",
        "nan", "NaN", "infinity", "1e999", "-1e-999",
        "-1e-99999999999999999999999999999", "12345678901234567890e-16",
    ] {
        assert!(!in_turn(text), "{:?} lies outside the full turn", text);
    }
    for text in ["360.1", "-0.1", "361", "3.7e2", "1e3", "400", "-1", "inf", "nan", "1e999"] {
        let float = float_of(text).unwrap();
        assert!(!(0.0..=360.0).contains(&float), "{:?}", text);
    }
}

#[test]
fn codepoints() {
    assert_eq!(parse_codepoint("002E").unwrap(), '.');
    assert_eq!(parse_codepoint("04D2").unwrap(), '\u{04D2}');
    assert_eq!(parse_codepoint("4d2").unwrap(), '\u{04D2}');
    assert_eq!(parse_codepoint("+41").unwrap(), 'A');
    assert_eq!(parse_codepoint("0").unwrap(), '\0');
    assert_eq!(parse_codepoint("D7FF").unwrap(), '\u{D7FF}');
    assert_eq!(parse_codepoint("E000").unwrap(), '\u{E000}');
    assert_eq!(parse_codepoint("10FFFF").unwrap(), '\u{10FFFF}');
    assert_eq!(parse_codepoint("0000000000010FFFF").unwrap(), '\u{10FFFF}');
    // The text is a number, not a character to hand back.
    assert_eq!(parse_codepoint("A").unwrap(), '\n');
    assert_eq!(parse_codepoint("41").unwrap() as u32, 0x41);
}

#[test]
fn invalid_codepoints() {
    for text in ["", "+", "-41", "0x41", "G", "41 ", " 41", "4_1", "D800", "DFFF", "110000", "FFFFFFFF", "100000000", "++41", "４１"] {
        match parse_codepoint(text) {
            Err(Error::Parse(ErrorKind::InvalidCodepoint(kept, _))) => assert_eq!(kept, text),
            other => panic!("{:?} gave {:?}", text, other),
        }
    }
}

#[test]
fn codepoint_causes() {
    assert!(matches!(
        parse_codepoint("xyz"),
        Err(Error::Parse(ErrorKind::InvalidCodepoint(_, CodepointCause::NotHexadecimal(_))))
    ));
    assert!(matches!(
        parse_codepoint("100000000"),
        Err(Error::Parse(ErrorKind::InvalidCodepoint(_, CodepointCause::NotHexadecimal(_))))
    ));
    assert!(matches!(
        parse_codepoint("D800"),
        Err(Error::Parse(ErrorKind::InvalidCodepoint(_, CodepointCause::NotScalar(_))))
    ));
}

#[test]
fn integers() {
    assert_eq!(parse_integer("0").unwrap(), 0);
    assert_eq!(parse_integer("123").unwrap(), 123);
    assert_eq!(parse_integer("+7").unwrap(), 7);
    assert_eq!(parse_integer("007").unwrap(), 7);
    assert_eq!(parse_integer("4294967295").unwrap(), u32::MAX);
    for text in ["", "+", "-1", "4294967296", "1.0", "a", "1a", " 1", "1e3"] {
        match parse_integer(text) {
            Err(Error::Parse(ErrorKind::InvalidInteger(kept, _))) => assert_eq!(kept, text),
            other => panic!("{:?} gave {:?}", text, other),
        }
    }
}

#[test]
fn colors() {
    let color = parse_color("1,0,0,0.5").unwrap();
    assert_eq!(color.red.as_str(), "1");
    assert_eq!(color.green.as_str(), "0");
    assert_eq!(color.blue.as_str(), "0");
    assert_eq!(color.alpha.as_str(), "0.5");
    let color = parse_color("0.25,.5,1e-1,1.").unwrap();
    assert_eq!(
        (color.red.as_str(), color.green.as_str(), color.blue.as_str(), color.alpha.as_str()),
        ("0.25", ".5", "1e-1", "1.")
    );
}

#[test]
fn colors_are_not_held_to_a_range() {
    let color = parse_color("2,-1,1e9,inf").unwrap();
    assert_eq!(float_of(color.red.as_str()), Some(2.0));
    assert_eq!(float_of(color.green.as_str()), Some(-1.0));
    assert_eq!(float_of(color.blue.as_str()), Some(1e9));
    assert_eq!(float_of(color.alpha.as_str()), Some(f64::INFINITY));
}

#[test]
fn invalid_colors() {
    for text in [
        "", ",", ",,,", "1", "1,0", "1,0,0", "1,0,0,1,", "1,0,0,1,1", ",1,0,0,1", "1,,0,1",
        "1, 0,0,1", " 1,0,0,1", "1,0,0,1 ", "a,0,0,1", "1,0,0,x", "1;0;0;1", "1,0,0,\u{e9}",
        "١,0,0,1",
    ] {
        assert!(
            matches!(parse_color(text), Err(Error::Parse(ErrorKind::InvalidColor))),
            "{:?}",
            text
        );
    }
}

#[test]
fn identifiers() {
    assert_eq!(Identifier::new("a1").unwrap().as_str(), "a1");
    assert!(Identifier::new(" ").is_some());
    assert!(Identifier::new("~ !\"#$%&'()*+,-./09:;<=>?@AZ[\\]^_`az{|}").is_some());
    assert!(Identifier::new(&"x".repeat(100)).is_some());
    assert!(Identifier::new(&"x".repeat(101)).is_none());
    assert!(Identifier::new("").is_none());
    assert!(Identifier::new("a\u{7f}").is_none());
    assert!(Identifier::new("a\nb").is_none());
    assert!(Identifier::new("a\tb").is_none());
    assert!(Identifier::new("\u{e9}").is_none());
    assert!(Identifier::new("a\u{1f}").is_none());
}

#[test]
fn registering_identifiers() {
    let mut seen = IdentifierSet::new();
    assert!(!seen.contains("a"));
    let a = parse_identifier("a", &mut seen, &GlifVersion::V2).unwrap();
    assert_eq!(a.as_str(), "a");
    assert!(seen.contains("a"));
    assert!(!seen.contains("b"));
    assert!(matches!(
        parse_identifier("a", &mut seen, &GlifVersion::V2),
        Err(Error::Parse(ErrorKind::DuplicateIdentifier))
    ));
    assert!(matches!(
        parse_identifier("a", &mut seen, &GlifVersion::V2),
        Err(Error::Parse(ErrorKind::DuplicateIdentifier))
    ));
    let b = parse_identifier("b", &mut seen, &GlifVersion::V2).unwrap();
    assert_eq!(b.as_str(), "b");
    assert!(seen.contains("a") && seen.contains("b"));
}

#[test]
fn rejected_identifiers_are_not_recorded() {
    let mut seen = IdentifierSet::new();
    assert!(matches!(
        parse_identifier("a", &mut seen, &GlifVersion::V1),
        Err(Error::Parse(ErrorKind::UnexpectedAttribute))
    ));
    assert!(!seen.contains("a"));
    assert!(matches!(
        parse_identifier("", &mut seen, &GlifVersion::V2),
        Err(Error::Parse(ErrorKind::BadIdentifier))
    ));
    assert!(matches!(
        parse_identifier("\u{fc}", &mut seen, &GlifVersion::V2),
        Err(Error::Parse(ErrorKind::BadIdentifier))
    ));
    // Under version 1 the attribute itself is the fault, whatever it holds.
    assert!(matches!(
        parse_identifier("", &mut seen, &GlifVersion::V1),
        Err(Error::Parse(ErrorKind::UnexpectedAttribute))
    ));
    assert!(!seen.contains(""));
    assert!(parse_identifier("a", &mut seen, &GlifVersion::V2).is_ok());
}

/// Every text of at most `length` characters over `alphabet`, one after the other.
fn for_each_text(alphabet: &[char], length: usize, check: &mut dyn FnMut(&str)) {
    let mut text = String::new();
    fn extend(alphabet: &[char], left: usize, text: &mut String, check: &mut dyn FnMut(&str)) {
        check(text);
        if left > 0 {
            for &c in alphabet {
                text.push(c);
                extend(alphabet, left - 1, text, check);
                text.pop();
            }
        }
    }
    extend(alphabet, length, &mut text, check);
}

#[test]
fn short_texts_are_numbers_where_they_are_floats() {
    let mut count = 0;
    for_each_text(&['+', '-', '.', 'e', 'E', '0', '1', '9', 'n', ' '], 5, &mut |text| {
        count += 1;
        assert_eq!(Number::read(text).is_some(), float_of(text).is_some(), "{:?}", text);
    });
    assert_eq!(count, 111111);
}

#[test]
fn short_words_are_numbers_where_they_are_floats() {
    for_each_text(&['i', 'n', 'f', 'a', 'N', 'I', '+', '-'], 5, &mut |text| {
        assert_eq!(Number::read(text).is_some(), float_of(text).is_some(), "{:?}", text);
    });
    for_each_text(&['i', 'n', 'f', 't', 'y', 'Y', '+'], 5, &mut |tail| {
        let text = format!("-InFi{}", tail);
        assert_eq!(Number::read(&text).is_some(), float_of(&text).is_some(), "{:?}", text);
    });
}

#[test]
fn short_numbers_lie_in_the_full_turn_where_their_floats_do() {
    for_each_text(&['-', '.', 'e', '0', '1', '3', '6', '9'], 6, &mut |text| {
        if let Some(number) = Number::read(text) {
            let float = float_of(text).unwrap();
            assert_eq!(number.is_in_full_turn(), (0.0..=360.0).contains(&float), "{:?}", text);
        }
    });
}

#[test]
fn short_texts_are_codepoints_where_the_standard_library_reads_them() {
    for_each_text(&['+', '-', '0', '1', 'd', 'D', 'F', 'f', 'g', '8', ' '], 5, &mut |text| {
        let expected = u32::from_str_radix(text, 16).ok().and_then(|n| char::try_from(n).ok());
        assert_eq!(parse_codepoint(text).ok(), expected, "{:?}", text);
    });
    for text in ["10FFFF", "110000", "00D7FF", "00D800", "00DFFF", "00E000", "FFFFFFFF", "100000000"] {
        let expected = u32::from_str_radix(text, 16).ok().and_then(|n| char::try_from(n).ok());
        assert_eq!(parse_codepoint(text).ok(), expected, "{:?}", text);
    }
}

#[test]
fn short_texts_are_integers_where_the_standard_library_reads_them() {
    for_each_text(&['+', '-', '0', '1', '4', '9', 'a', ' ', '.'], 5, &mut |text| {
        assert_eq!(parse_integer(text).ok(), text.parse::<u32>().ok(), "{:?}", text);
    });
    for text in ["4294967295", "4294967296", "04294967295", "+4294967295", "99999999999"] {
        assert_eq!(parse_integer(text).ok(), text.parse::<u32>().ok(), "{:?}", text);
    }
}

#[test]
fn identifiers_are_those_of_norad_but_for_the_empty_one() {
    let mut texts: Vec<String> = vec![String::new(), "x".repeat(100), "x".repeat(101), "\u{e9}".repeat(50)];
    for code in 0..=0x100u32 {
        texts.push(char::from_u32(code).unwrap().to_string());
        texts.push(format!("a{}b", char::from_u32(code).unwrap()));
    }
    for text in texts {
        let expected = !text.is_empty() && norad::Identifier::new(text.as_str()).is_ok();
        assert_eq!(Identifier::new(&text).is_some(), expected, "{:?}", text);
    }
    assert!(norad::Identifier::new("").is_ok());
}

#[test]
fn failures_carry_what_the_standard_library_reported() {
    for text in ["", "x", "-1", "4294967296", "1 "] {
        match parse_integer(text) {
            Err(Error::Parse(ErrorKind::InvalidInteger(_, cause))) => {
                assert_eq!(cause, text.parse::<u32>().unwrap_err(), "{:?}", text)
            }
            other => panic!("{:?}", other),
        }
    }
    for text in ["", "g", "100000000"] {
        match parse_codepoint(text) {
            Err(Error::Parse(ErrorKind::InvalidCodepoint(_, CodepointCause::NotHexadecimal(cause)))) => {
                assert_eq!(cause, u32::from_str_radix(text, 16).unwrap_err(), "{:?}", text)
            }
            other => panic!("{:?}", other),
        }
    }
    match parse_codepoint("D800") {
        Err(Error::Parse(ErrorKind::InvalidCodepoint(_, CodepointCause::NotScalar(cause)))) => {
            assert_eq!(cause, char::try_from(0xD800u32).unwrap_err())
        }
        other => panic!("{:?}", other),
    }
}
