use omatide::json::{parse, string};

#[test]
fn refuses_what_isnt_json() {
    assert!(parse("{").is_err());
    assert!(parse("").is_err());
}

#[test]
fn quotes_and_escapes_a_string() {
    assert_eq!(string("Red Rock"), "\"Red Rock\"");
    assert_eq!(string("Pier \"D\""), "\"Pier \\\"D\\\"\"");
    assert!(parse(&string("a\nb")).is_ok());
}

#[test]
fn an_error_says_the_json_is_bad() {
    let e = parse("{\"a\": }").unwrap_err();
    assert!(e.starts_with("bad JSON: "), "{e}");
    assert!(e.len() > "bad JSON: ".len());
}

#[test]
fn a_document_reads_as_a_value() {
    let v = parse("{\"stations\": [1, 2]}").unwrap();
    assert_eq!(v["stations"].as_array().map(|a| a.len()), Some(2));
    assert!(parse("  [ ]  ").is_ok());
}
