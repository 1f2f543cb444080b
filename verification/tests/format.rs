use blk_config::canonicalize;
use blk_config::parse::{parse_entry, parse_property, parse_section};
use blk_config::{parse_config, stringify_config};
use blk_config::{BlkEntry, BlkPropertyValue, ParseErrorKind};

fn roundtrip(input: &str) -> String {
    let (_, config) = parse_config(input).unwrap();
    stringify_config(&config)
}

#[test]
fn test_boolean_aliasing_parse() {
    let (rest, config) = parse_config("a:b=true;b:b=yes;c:b=false;d:b=no;").unwrap();
    assert_eq!(rest, "");
    let values: Vec<&BlkPropertyValue> = config
        .block
        .entries
        .iter()
        .map(|e| match e {
            BlkEntry::Property(p) => &p.value,
            _ => panic!("expected properties"),
        })
        .collect();
    assert_eq!(*values[0], BlkPropertyValue::Boolean(true));
    assert_eq!(*values[1], BlkPropertyValue::Boolean(true));
    assert_eq!(*values[2], BlkPropertyValue::Boolean(false));
    assert_eq!(*values[3], BlkPropertyValue::Boolean(false));
}

#[test]
fn test_boolean_canonical_spelling() {
    let out = roundtrip("a:b=true;b:b=yes;c:b=false;d:b=no;");
    assert_eq!(out, "a:b=yes\nb:b=yes\nc:b=no\nd:b=no\n");
}

#[test]
fn test_numeric_fidelity_integer() {
    let (rest, config) = parse_config("age:i=30;").unwrap();
    assert_eq!(rest, "");
    assert_eq!(config.block.entries.len(), 1);
    match &config.block.entries[0] {
        BlkEntry::Property(p) => {
            assert_eq!(p.key, "age");
            assert_eq!(p.value, BlkPropertyValue::Integer(30));
        },
        _ => panic!("expected a property"),
    }
}

#[test]
fn test_numeric_fidelity_real() {
    let (rest, config) = parse_config("x:r=0.5;").unwrap();
    assert_eq!(rest, "");
    assert_eq!(config.block.entries.len(), 1);
    match &config.block.entries[0] {
        BlkEntry::Property(p) => {
            assert_eq!(p.value, BlkPropertyValue::Real((0.5f32).to_string()));
            assert_eq!(p.value, BlkPropertyValue::Real("0.5".to_string()));
        },
        _ => panic!("expected a property"),
    }
}

#[test]
fn test_real_canonicalized_on_parse() {
    // Trailing zeros and an exponent are not preserved: the stored value is
    // the canonical rendering of the 32-bit float.
    let (rest, config) = parse_config("x:r=0.50;y:r=25e-1;").unwrap();
    assert_eq!(rest, "");
    match &config.block.entries[0] {
        BlkEntry::Property(p) => assert_eq!(p.value, BlkPropertyValue::Real("0.5".to_string())),
        _ => panic!("expected a property"),
    }
    match &config.block.entries[1] {
        BlkEntry::Property(p) => assert_eq!(p.value, BlkPropertyValue::Real("2.5".to_string())),
        _ => panic!("expected a property"),
    }
    assert_eq!(stringify_config(&config), "x:r=0.5\ny:r=2.5\n");
}

#[test]
fn test_vector_arity_p4() {
    let (rest, config) = parse_config("v:p4=0.35, -1, 0.35, 0;").unwrap();
    assert_eq!(rest, "");
    assert_eq!(config.block.entries.len(), 1);
    match &config.block.entries[0] {
        BlkEntry::Property(p) => {
            assert_eq!(
                p.value,
                BlkPropertyValue::Vector4(
                    (0.35f32).to_string(),
                    (-1.0f32).to_string(),
                    (0.35f32).to_string(),
                    (0.0f32).to_string(),
                )
            );
        },
        _ => panic!("expected a property"),
    }
}

#[test]
fn test_vector_arity_p3_too_few_components_fails() {
    // A p3 value with only two components does not parse as an entry; the
    // whole input is left over.
    let (rest, config) = parse_config("v:p3=0.35, -1;").unwrap();
    assert!(config.block.entries.is_empty());
    assert_eq!(rest, "v:p3=0.35, -1;");
}

#[test]
fn test_color_integer_channels() {
    let (rest, config) = parse_config("tint:c=255, 0, 127, -1;").unwrap();
    assert_eq!(rest, "");
    match &config.block.entries[0] {
        BlkEntry::Property(p) => {
            assert_eq!(p.value, BlkPropertyValue::Color(255, 0, 127, -1));
        },
        _ => panic!("expected a property"),
    }
    assert_eq!(stringify_config(&config), "tint:c=255, 0, 127, -1\n");
}

#[test]
fn test_separator_flexibility() {
    for sep in [";", "\n", "\r\n", ";\n;", ";;\n;"] {
        let input = format!("a:i=1{}b:i=2{}", sep, sep);
        let (rest, config) = parse_config(&input).unwrap();
        assert_eq!(rest, "");
        assert_eq!(config.block.entries.len(), 2);
    }
}

#[test]
fn test_integer_overflow_is_rejected() {
    // 2^31 does not fit a 32-bit signed integer; the entry fails.
    let (rest, config) = parse_config("x:i=2147483648;").unwrap();
    assert!(config.block.entries.is_empty());
    assert_eq!(rest, "x:i=2147483648;");
    // The boundary values do fit.
    let (rest, config) = parse_config("a:i=2147483647;b:i=-2147483648;").unwrap();
    assert_eq!(rest, "");
    assert_eq!(stringify_config(&config), "a:i=2147483647\nb:i=-2147483648\n");
}

#[test]
fn test_unterminated_string_is_an_error() {
    let chars: Vec<char> = "meow:t=\"uwu".chars().collect();
    let err = parse_property(&chars, 0).unwrap_err();
    assert_eq!(err.kind, ParseErrorKind::UnterminatedString);
    let (rest, config) = parse_config("meow:t=\"uwu").unwrap();
    assert!(config.block.entries.is_empty());
    assert_eq!(rest, "meow:t=\"uwu");
}

#[test]
fn test_missing_closing_brace_is_an_error() {
    let chars: Vec<char> = "uwu{owo:i=32;".chars().collect();
    let err = parse_section(&chars, 0).unwrap_err();
    assert_eq!(err.kind, ParseErrorKind::BraceExpected);
    let (rest, config) = parse_config("uwu{owo:i=32;").unwrap();
    assert!(config.block.entries.is_empty());
    assert_eq!(rest, "uwu{owo:i=32;");
}

#[test]
fn test_unknown_property_type_is_an_error() {
    let chars: Vec<char> = "meow:x=1;".chars().collect();
    let err = parse_property(&chars, 0).unwrap_err();
    assert_eq!(err.kind, ParseErrorKind::UnknownPropertyType);
    let (rest, config) = parse_config("meow:x=1;").unwrap();
    assert!(config.block.entries.is_empty());
    assert_eq!(rest, "meow:x=1;");
}

#[test]
fn test_missing_separator_is_an_error() {
    let chars: Vec<char> = "a:i=1 b:i=2;".chars().collect();
    let err = parse_entry(&chars, 0).unwrap_err();
    assert_eq!(err.kind, ParseErrorKind::SeparatorExpected);
}

#[test]
fn test_empty_identifier_is_an_error() {
    let chars: Vec<char> = ":i=1;".chars().collect();
    let err = parse_entry(&chars, 0).unwrap_err();
    assert_eq!(err.kind, ParseErrorKind::EmptyIdentifier);
}

#[test]
fn test_serialize_nested_section_layout() {
    let out = roundtrip("meow:t=\"uwu\";uwu{owo:i=32;};");
    assert_eq!(out, "meow:t=\"uwu\"\nuwu{\n    owo:i=32\n}\n");
}

#[test]
fn test_serialize_deep_nesting_indentation() {
    let out = roundtrip("a{b{x:i=1;};};");
    assert_eq!(out, "a{\n    b{\n        x:i=1\n    }\n}\n");
}

#[test]
fn test_idempotent_canonicalization() {
    let inputs = [
        "meow:t=\"uwu\";uwu{owo:i=32;};",
        "   a{  x:r=0.50;\r\n  y:p2=1.5, -2;   };;\nflag:b=true\n",
        "v:p4=0.35, -1, 0.35, 0;c:c=1, 2, 3, 4;",
        "",
    ];
    for input in inputs {
        let once = roundtrip(input);
        let twice = roundtrip(&once);
        assert_eq!(twice, once);
        // The canonical text parses with nothing left over.
        let (rest, _) = parse_config(&once).unwrap();
        assert_eq!(rest, "");
    }
}

#[test]
fn test_leftover_reported_not_dropped() {
    let (rest, config) = parse_config("a:i=1;???").unwrap();
    assert_eq!(config.block.entries.len(), 1);
    assert_eq!(rest, "???");
}

#[test]
fn test_canonicalize_certificate() {
    let (text, stable) = canonicalize("a:r=0.50;b{c:p2=1, 2;};");
    assert!(stable);
    assert_eq!(text, "a:r=0.5\nb{\n    c:p2=1, 2\n}\n");
    let (text2, stable2) = canonicalize(&text);
    assert!(stable2);
    assert_eq!(text2, text);
}

#[test]
fn test_canonicalize_overflowing_real_has_no_certificate() {
    // 9e99 overflows the 32-bit float range; its canonical rendering `inf`
    // is not a literal of the grammar, so idempotence is not certified.
    let (text, stable) = canonicalize("x:r=9e99;");
    assert!(!stable);
    assert_eq!(text, "x:r=inf\n");
}

#[test]
fn test_error_offsets() {
    let chars: Vec<char> = "meow:x=1;".chars().collect();
    let err = parse_property(&chars, 0).unwrap_err();
    assert_eq!(err.offset, 5);
    let chars: Vec<char> = "a:i=;".chars().collect();
    let err = parse_property(&chars, 0).unwrap_err();
    assert_eq!(err.kind, ParseErrorKind::IntegerExpected);
}

#[test]
fn test_lone_p_tag_is_unknown() {
    let chars: Vec<char> = "a:p=1;".chars().collect();
    let err = parse_property(&chars, 0).unwrap_err();
    assert_eq!(err.kind, ParseErrorKind::UnknownPropertyType);
}

#[test]
fn test_real_exponent_forms() {
    let (rest, config) = parse_config("a:r=1.5e2;b:r=-2E-1;c:r=7.;").unwrap();
    assert_eq!(rest, "");
    assert_eq!(stringify_config(&config), "a:r=150\nb:r=-0.2\nc:r=7\n");
}
