use omatide::constituent::{index_of, name, COUNT};

#[test]
fn every_name_is_unique_and_findable() {
    for i in 0..COUNT {
        assert_eq!(index_of(name(i)), Some(i), "{}", name(i));
    }
    assert_eq!(index_of("m2"), Some(0));
    assert_eq!(index_of("nope"), None);
}

#[test]
fn names_are_found_whatever_their_case() {
    assert_eq!(index_of("M2"), Some(0));
    assert_eq!(index_of("s2"), index_of("S2"));
    assert!(index_of("S2").is_some());
    assert_eq!(index_of(""), None);
    assert_eq!(index_of("M2 "), None);
}

#[test]
fn the_table_holds_every_constituent_noaa_publishes() {
    assert_eq!(COUNT, 37);
    for wanted in ["MK3", "MN4", "NU2", "MU2", "2N2", "OO1", "LAM2", "SSA", "MSF", "RHO", "2Q1", "2SM2", "2MK3", "MS4", "M8", "K2"] {
        assert!(index_of(wanted).is_some(), "{wanted} missing");
    }
}
