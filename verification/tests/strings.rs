use omatide::strings::{chars_eq, find_char, owned, parse_digits, parse_i64, parse_u32, push_decimal, str_eq, string_of};

#[test]
fn numbers_read_and_write_in_decimal() {
    let mut s = owned("bin ");
    push_decimal(&mut s, 0);
    push_decimal(&mut s, 17);
    assert_eq!(s, "bin 017");
    let mut m = String::new();
    push_decimal(&mut m, u64::MAX);
    assert_eq!(m, u64::MAX.to_string());
    assert_eq!(parse_i64("-42"), Some(-42));
    assert_eq!(parse_i64("+7"), Some(7));
    assert_eq!(parse_i64("9223372036854775807"), Some(i64::MAX));
    assert_eq!(parse_i64("-9223372036854775808"), Some(i64::MIN));
    assert_eq!(parse_i64("9223372036854775808"), None);
    assert_eq!(parse_i64(""), None);
    assert_eq!(parse_i64("4 "), None);
    let v: Vec<char> = "x-4294967295".chars().collect();
    assert_eq!(parse_u32(&v, 2), Some(u32::MAX));
    let w: Vec<char> = "x-4294967296".chars().collect();
    assert_eq!(parse_u32(&w, 2), None);
    let d: Vec<char> = "2026".chars().collect();
    assert_eq!(parse_digits(&d, 0, 9999), Some(2026));
    assert_eq!(parse_digits(&d, 0, 999), None);
}

#[test]
fn text_is_compared_and_cut_by_character() {
    assert!(str_eq("tide", "tide"));
    assert!(!str_eq("tide", "Tide"));
    let v: Vec<char> = "SFB1202-17".chars().collect();
    assert_eq!(find_char(&v, '-'), Some(7));
    assert_eq!(find_char(&v, '_'), None);
    assert_eq!(string_of(&v, 0, 7), "SFB1202");
    assert!(chars_eq(&v, &v.clone()));
}
