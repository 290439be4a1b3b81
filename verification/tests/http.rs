use omatide::http::{get_text, outcome, LIMIT};

#[test]
fn a_limit_of_nothing_is_refused_not_truncated() {
    let url = "file:///tmp/Cargo.toml";
    let body = b"[package]\nname = \"x\"\n".to_vec();
    assert_eq!(outcome(url, 1, true, String::new(), Some(body.clone())).unwrap_err(), format!("{url}: more than 0 MB"));
    assert_eq!(outcome(url, LIMIT, true, String::new(), Some(body.clone())).unwrap(), body);
}

#[test]
fn a_failed_fetch_says_why() {
    let url = "https://omatide.invalid/nothing";
    let e = outcome(url, LIMIT, false, "curl: (6) Could not resolve host".into(), None).unwrap_err();
    assert_eq!(e, "curl: (6) Could not resolve host");
    assert_eq!(outcome(url, LIMIT, false, String::new(), None).unwrap_err(), format!("curl failed on {url}"));
    assert_eq!(outcome(url, LIMIT, true, String::new(), None).unwrap_err(), format!("{url}: couldn't read the answer"));
    assert_eq!(
        outcome(url, 2 << 20, true, String::new(), Some(vec![0; (2 << 20) + 1])).unwrap_err(),
        format!("{url}: more than 2 MB")
    );
}

#[test]
fn an_answer_is_text_or_an_error() {
    assert_eq!(get_text("u", b"{\"a\": \"\xc3\xa9\"}".to_vec()).unwrap(), "{\"a\": \"é\"}");
    assert_eq!(get_text("u", vec![0xff, 0xfe]).unwrap_err(), "u: the answer wasn't text");
    assert_eq!(LIMIT, 16 << 20);
}
