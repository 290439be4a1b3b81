use omatide::station::{read_entry, Catalog, Kind, Source, Station};

fn sample() -> Catalog {
    let mut c = Catalog::new();
    c.stations.push(Station {
        id: "9414290".into(),
        bin: None,
        name: "San Francisco (Golden Gate)".into(),
        kind: Kind::Tide,
        source: Source::Harmonic,
    });
    c.stations.push(Station {
        id: "9414806".into(),
        bin: None,
        name: "Sausalito".into(),
        kind: Kind::Tide,
        source: Source::Tide { reference: "9414290".into() },
    });
    c.stations.push(Station {
        id: "SFB1212".into(),
        bin: Some(9),
        name: "Raccoon Strait".into(),
        kind: Kind::Current,
        source: Source::Harmonic,
    });
    c.insert_harmonics("9414290".into());
    c
}

#[test]
fn a_station_is_ready_when_its_reference_has_constants() {
    let c = sample();
    assert!(c.is_ready("9414290"));
    // Sausalito has no constants of its own, but San Francisco does.
    assert!(c.is_ready("9414806"));
    // Raccoon Strait is harmonic and has none yet.
    assert!(!c.is_ready("SFB1212-9"));
    assert!(!c.is_ready("nowhere"));
}

#[test]
fn a_station_is_found_by_its_key() {
    let c = sample();
    assert_eq!(c.get("SFB1212-9").unwrap().name, "Raccoon Strait");
    assert_eq!(c.get("9414806").unwrap().reference(), Some("9414290"));
    assert_eq!(c.get("9414290").unwrap().reference(), None);
    assert!(c.get("SFB1212").is_none());
    assert_eq!(c.position("SFB1212-9"), Some(2));
}

#[test]
fn keys_carry_the_bin() {
    let c = sample();
    assert_eq!(c.stations[0].key(), "9414290");
    assert_eq!(c.stations[2].key(), "SFB1212-9");
}

#[test]
fn kinds_read_back_their_names() {
    for k in [Kind::Tide, Kind::Current] {
        assert_eq!(Kind::parse(k.name()), Some(k));
    }
    assert_eq!(Kind::Tide.name(), "tide");
    assert_eq!(Kind::parse("current"), Some(Kind::Current));
    assert_eq!(Kind::parse("Tide"), None);
}

#[test]
fn constants_are_held_once() {
    let mut c = sample();
    c.insert_harmonics("9414290".into());
    assert_eq!(c.constants.len(), 1);
    assert!(c.has_harmonics("9414290"));
    assert!(!c.has_harmonics("9414806"));
}

#[test]
fn ready_stations_of_a_kind_are_counted() {
    let mut c = sample();
    assert_eq!(c.ready_of_kind(Kind::Tide), [0, 1]);
    assert!(c.ready_of_kind(Kind::Current).is_empty());
    c.insert_harmonics("SFB1212-9".into());
    assert_eq!(c.ready_of_kind(Kind::Current), [2]);
}

#[test]
fn a_cached_entry_reads_back_as_a_station() {
    let s = read_entry(Some("9414806"), Some("tide"), Some("Sausalito"), None, Some("9414290"), true).unwrap();
    assert_eq!(s.key(), "9414806");
    assert_eq!(s.reference(), Some("9414290"));
    assert!(matches!(s.source, Source::Tide { .. }));
    let c = read_entry(Some("SFB1212"), Some("current"), None, Some(9), None, false).unwrap();
    assert_eq!((c.key().as_str(), c.name.as_str(), c.kind), ("SFB1212-9", "SFB1212", Kind::Current));
    assert_eq!(c.source, Source::Harmonic);
    assert_eq!(read_entry(None, Some("tide"), None, None, None, false).unwrap_err(), "station has no id");
    assert_eq!(read_entry(Some("x"), Some("wind"), None, None, None, false).unwrap_err(), "x: no kind");
    assert_eq!(read_entry(Some("x"), None, None, None, None, false).unwrap_err(), "x: no kind");
    assert_eq!(read_entry(Some("x"), Some("tide"), None, None, Some("y"), false).unwrap_err(), "x: no offsets");
}

#[test]
fn each_station_is_counted_once_whatever_its_bins() {
    let mut c = Catalog::new();
    for (id, bin, kind) in [
        ("SFB1212", Some(1), Kind::Current),
        ("9414290", None, Kind::Tide),
        ("SFB1212", Some(9), Kind::Current),
        ("PCT0671", Some(1), Kind::Current),
    ] {
        c.stations.push(Station { id: id.into(), bin, name: id.into(), kind, source: Source::Harmonic });
    }
    assert_eq!(c.first_of_each_id(Kind::Current), [0, 3]);
    assert_eq!(c.first_of_each_id(Kind::Tide), [1]);
}
