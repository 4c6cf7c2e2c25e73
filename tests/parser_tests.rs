use sd_import::sd_parser::{ParseError, PropertyEntry, SdItem, SdParser, TypedValue};
use std::collections::BTreeSet;
use std::io::Read;

fn only_property(sd: &str) -> PropertyEntry {
    let item = SdItem::new(sd).ok().unwrap();
    assert_eq!(1, item.props.len());
    item.props.into_iter().next().unwrap()
}

#[test]
fn test_all_properties_parsed() {
    let sd_item = SdItem::new("975001
  -OEChem-05211109542D

 45 47  0     0  0  0  0  0  \
                                   0999 V2000
 25 45  1  0  0  0  0
M  END
>  <COMPOUND_CID>
\
                                   975001

> <COMPOUND_CANONICALIZED>
1

> <CACTVS_COMPLEXITY>
\
                                   426");

    let sd = &sd_item.ok().unwrap();
    assert_eq!(3, sd.props.len());
    let mut sd_properties: BTreeSet<String> = BTreeSet::new();

    for p in sd.props.iter() {
        sd_properties.insert(p.raw_key.clone());
    }

    assert!(sd_properties.contains("COMPOUND_CANONICALIZED"));
    assert!(sd_properties.contains("COMPOUND_CID"));
    assert!(sd_properties.contains("CACTVS_COMPLEXITY"));
}

#[test]
fn property_numeric_value_round_trip() {
    let p = only_property("body\n> <KEY>\n426");
    assert_eq!("KEY", p.raw_key);
    assert_eq!("key", p.normalized_key);
    assert_eq!("426", p.raw_value);
    match p.typed_value {
        TypedValue::Number(n) => {
            assert_eq!("426", n);
            assert_eq!(426u64, n.parse::<u64>().unwrap());
        }
        _ => panic!("426 is a number"),
    }
}

#[test]
fn property_text_value_round_trip() {
    let p = only_property("body\n> <KEY>\nVALUE");
    assert_eq!("KEY", p.raw_key);
    assert_eq!("key", p.normalized_key);
    assert_eq!("VALUE", p.raw_value);
    match p.typed_value {
        TypedValue::Text(s) => assert_eq!("VALUE", s),
        _ => panic!("VALUE is no JSON"),
    }
}

#[test]
fn property_float_value() {
    let p = only_property("body\n> <PUBCHEM_EXACT_MASS>\n300.5\n\n");
    assert_eq!("pubchem_exact_mass", p.normalized_key);
    assert_eq!("300.5", p.raw_value);
    match p.typed_value {
        TypedValue::Number(n) => {
            assert_eq!("300.5", n);
            assert_eq!(300.5f64, n.parse::<f64>().unwrap());
            assert!(n.parse::<f64>().unwrap() > 300.0);
        }
        _ => panic!("300.5 is a number"),
    }
}

#[test]
fn properties_keep_their_order_and_trim() {
    let item = SdItem::new("mol\n>  <B>\n  x y \n\n>\t<A>\n\"q\"\n").ok().unwrap();
    assert_eq!(2, item.props.len());
    assert_eq!("B", item.props[0].raw_key);
    assert_eq!("  x y", item.props[0].raw_value);
    assert_eq!("A", item.props[1].raw_key);
    assert_eq!("\"q\"", item.props[1].raw_value);
    match &item.props[1].typed_value {
        TypedValue::Str(s) => assert_eq!("q", s),
        _ => panic!("a quoted string is JSON"),
    }
}

#[test]
fn key_without_value() {
    let p = only_property("mol\n> <EMPTY>");
    assert_eq!("EMPTY", p.raw_key);
    assert_eq!("", p.raw_value);
}

#[test]
fn missing_body_is_rejected() {
    assert!(matches!(SdItem::new("> <A>\n1\n"), Err(ParseError::NoBody)));
    assert!(matches!(SdItem::new(""), Err(ParseError::NoBody)));
}

#[test]
fn body_without_properties() {
    let item = SdItem::new("just a molecule\n").ok().unwrap();
    assert_eq!(0, item.props.len());
}

#[test]
fn payload_is_gzip_of_body() {
    let item = SdItem::new("975001\nM  END\n> <A>\n1\n").ok().unwrap();
    assert_ne!(b"975001\nM  END\n".to_vec(), item.mol);
    let mut d = flate2::read::GzDecoder::new(&item.mol[..]);
    let mut body = String::new();
    d.read_to_string(&mut body).unwrap();
    assert_eq!("975001\nM  END\n", body);
}

#[test]
fn splitter_yields_records() {
    let mut p = SdParser::new();
    assert!(p.push_line("a").is_none());
    assert!(p.push_line("b").is_none());
    assert_eq!(Some("a\nb\n".to_string()), p.push_line("$$$$"));
    assert!(p.push_line("c").is_none());
    assert_eq!(Some("c\n".to_string()), p.push_line("$$$$"));
    assert_eq!(None, p.finish());
}

#[test]
fn splitter_keeps_unterminated_last_record() {
    let mut p = SdParser::new();
    assert!(p.push_line("x").is_none());
    assert!(p.push_line("").is_none());
    assert_eq!(Some("x\n\n".to_string()), p.finish());
    assert_eq!(None, p.finish());
}

#[test]
fn splitter_delimiter_must_be_exact() {
    let mut p = SdParser::new();
    assert!(p.push_line("$$$$ ").is_none());
    assert!(p.push_line("$$$").is_none());
    assert_eq!(None, SdParser::new().push_line("$$$$"));
    assert_eq!(Some("$$$$ \n$$$\n".to_string()), p.push_line("$$$$"));
}

#[test]
fn scalars_are_typed() {
    assert!(matches!(SdItem::read_property("true"), TypedValue::Bool(true)));
    assert!(matches!(SdItem::read_property("false"), TypedValue::Bool(false)));
    assert!(matches!(SdItem::read_property("null"), TypedValue::Null));
    match SdItem::read_property("-1.5e3") {
        TypedValue::Number(n) => assert_eq!(-1500.0f64, n.parse::<f64>().unwrap()),
        _ => panic!("-1.5e3 is a number"),
    }
    match SdItem::read_property("\"a\\nb\"") {
        TypedValue::Str(s) => assert_eq!("a\nb", s),
        _ => panic!("a quoted string is JSON"),
    }
    match SdItem::read_property("01") {
        TypedValue::Text(s) => assert_eq!("01", s),
        _ => panic!("a leading zero is no JSON number"),
    }
}

#[test]
fn arrays_and_objects_stay_text() {
    match SdItem::read_property("[1, 2]") {
        TypedValue::Text(s) => assert_eq!("[1, 2]", s),
        _ => panic!("an array is no scalar"),
    }
    match SdItem::read_property(" {}") {
        TypedValue::Text(s) => assert_eq!(" {}", s),
        _ => panic!("an object is no scalar"),
    }
    let deep = "[".repeat(200000);
    match SdItem::read_property(&deep) {
        TypedValue::Text(s) => assert_eq!(deep, s),
        _ => panic!("nested arrays are no scalar"),
    }
}

#[test]
fn three_properties_in_order_with_values() {
    let sd = "975001\nM  END\n>  <COMPOUND_CID>\n975001\n\n> <COMPOUND_CANONICALIZED>\n1\n\n> <CACTVS_COMPLEXITY>\n426";
    let item = SdItem::new(sd).ok().unwrap();
    let keys: Vec<&str> = item.props.iter().map(|p| p.raw_key.as_str()).collect();
    assert_eq!(vec!["COMPOUND_CID", "COMPOUND_CANONICALIZED", "CACTVS_COMPLEXITY"], keys);
    let numbers: Vec<String> = item
        .props
        .iter()
        .map(|p| match &p.typed_value {
            TypedValue::Number(n) => n.clone(),
            _ => panic!("every value here is a number"),
        })
        .collect();
    assert_eq!(vec!["975001", "1", "426"], numbers);
}

#[test]
fn long_exponents_stay_text() {
    let v = format!("1e{}", "9".repeat(25));
    match SdItem::read_property(&v) {
        TypedValue::Text(s) => assert_eq!(v, s),
        _ => panic!("an exponent of ten digits or more is not read"),
    }
    match SdItem::read_property("2E+0000000001") {
        TypedValue::Text(s) => assert_eq!("2E+0000000001", s),
        _ => panic!("an exponent of ten digits or more is not read"),
    }
    match SdItem::read_property("1e5") {
        TypedValue::Number(n) => assert_eq!(100000.0f64, n.parse::<f64>().unwrap()),
        _ => panic!("1e5 is a number"),
    }
    match SdItem::read_property("1e-123456789") {
        TypedValue::Number(n) => assert_eq!("1e-123456789", n),
        _ => panic!("a nine-digit exponent is read"),
    }
}

#[test]
fn item_from_segments() {
    let segs = vec!["body\n".to_string(), "KEY>\n426\n\n".to_string(), "B>\nx".to_string()];
    let item = SdItem::from_segments(&segs).ok().unwrap();
    assert_eq!(2, item.props.len());
    assert_eq!("KEY", item.props[0].raw_key);
    assert_eq!("key", item.props[0].normalized_key);
    assert!(matches!(&item.props[0].typed_value, TypedValue::Number(n) if n == "426"));
    assert_eq!("b", item.props[1].normalized_key);
    assert!(matches!(&item.props[1].typed_value, TypedValue::Text(t) if t == "x"));
    assert!(!item.mol.is_empty());
    assert!(matches!(SdItem::from_segments(&vec!["".to_string(), "A>\n1".to_string()]), Err(ParseError::NoBody)));
    assert!(matches!(SdItem::from_segments(&Vec::new()), Err(ParseError::NoBody)));
}

#[test]
fn entry_from_segment() {
    let e = SdItem::read_entry("  MW>\n  12.5  \n");
    assert_eq!("MW", e.raw_key);
    assert_eq!("mw", e.normalized_key);
    assert_eq!("  12.5", e.raw_value);
    assert!(matches!(e.typed_value, TypedValue::Number(n) if n == "  12.5"));
}
