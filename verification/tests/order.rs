use omatide::order::{first_of_each, lex_less, pair_less, stable_order};

fn key(text: &str, n: u64) -> (Vec<char>, u64) {
    (text.chars().collect(), n)
}

#[test]
fn texts_compare_as_strings_do() {
    for (a, b) in [("", "a"), ("a", "b"), ("ab", "b"), ("SFB1212", "SFB1212-9"), ("9414290", "PCT0291")] {
        let (x, y): (Vec<char>, Vec<char>) = (a.chars().collect(), b.chars().collect());
        assert_eq!(lex_less(&x, &y), a < b, "{a} {b}");
        assert_eq!(lex_less(&y, &x), b < a, "{b} {a}");
    }
    assert!(pair_less(&key("a", 2), &key("b", 1)));
    assert!(pair_less(&key("a", 1), &key("a", 2)));
    assert!(!pair_less(&key("a", 2), &key("a", 2)));
}

#[test]
fn a_stable_sort_keeps_ties_in_order() {
    let keys = vec![key("b", 0), key("a", 1), key("b", 0), key("a", 0)];
    assert_eq!(stable_order(&keys), [3, 1, 0, 2]);
    assert_eq!(first_of_each(&keys), [3, 1, 0]);
    assert!(stable_order(&Vec::new()).is_empty());
}
