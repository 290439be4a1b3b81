use omatide::fetch::{by_station, key_order, missing_references, reference_parts, tally, Report};
use omatide::station::{Catalog, Kind, Source, Station};

fn station(id: &str, bin: Option<u32>, kind: Kind, source: Source) -> Station {
    Station { id: id.into(), bin, name: id.into(), kind, source }
}

#[test]
fn references_the_catalog_lacks_are_the_ones_it_goes_back_for() {
    let mut c = Catalog::new();
    let follows = |id: &str| Source::Tide { reference: id.into() };
    c.stations.push(station("here", None, Kind::Tide, Source::Harmonic));
    c.stations.push(station("a", None, Kind::Tide, follows("here")));
    c.stations.push(station("b", None, Kind::Tide, follows("far")));
    c.stations.push(station("c", None, Kind::Tide, follows("far")));
    c.insert_harmonics("here".into());
    assert_eq!(missing_references(&c), ["far"]);
    c.insert_harmonics("far".into());
    assert!(missing_references(&c).is_empty());
}

#[test]
fn missing_references_come_once_each_in_order() {
    let mut c = Catalog::new();
    for (id, r) in [("s1", "zed"), ("s2", "alpha"), ("s3", "zed"), ("s4", "SFB1202-17")] {
        c.stations.push(station(id, None, Kind::Tide, Source::Tide { reference: r.into() }));
    }
    assert_eq!(missing_references(&c), ["SFB1202-17", "alpha", "zed"]);
}

#[test]
fn a_report_passes_its_notes_on() {
    let seen = std::cell::RefCell::new(Vec::new());
    let report = Report {
        say: &|m: &str| seen.borrow_mut().push(m.to_string()),
    };
    report.note("one");
    report.note("two");
    assert_eq!(*seen.borrow(), ["one", "two"]);
}

#[test]
fn a_reference_key_names_a_station_and_maybe_a_bin() {
    assert_eq!(reference_parts("SFB1202-17"), Ok(("SFB1202".to_string(), Some(17))));
    assert_eq!(reference_parts("9414290"), Ok(("9414290".to_string(), None)));
    assert_eq!(reference_parts("SFB1202-x").unwrap_err(), "not a bin");
    assert_eq!(reference_parts("SFB1202-").unwrap_err(), "not a bin");
}

#[test]
fn current_rows_are_grouped_by_station() {
    let rows = vec![
        station("SFB1212", Some(9), Kind::Current, Source::Harmonic),
        station("PCT0671", Some(1), Kind::Current, Source::Harmonic),
        station("SFB1212", Some(1), Kind::Current, Source::Harmonic),
        station("SFB1212", Some(6), Kind::Current, Source::Harmonic),
    ];
    let (order, starts) = by_station(&rows);
    assert_eq!(order, [1, 0, 2, 3]);
    assert_eq!(starts, [0, 1]);
    let (order, starts) = by_station(&Vec::new());
    assert!(order.is_empty() && starts.is_empty());
}

#[test]
fn a_finished_catalog_is_kept_in_key_order() {
    let rows = vec![
        station("SFB1212", Some(9), Kind::Current, Source::Harmonic),
        station("9414290", None, Kind::Tide, Source::Harmonic),
        station("SFB1212", Some(1), Kind::Current, Source::Harmonic),
    ];
    assert_eq!(key_order(&rows), [1, 2, 0]);
}

#[test]
fn a_fetch_ends_in_a_tally() {
    let (note, error) = tally(300, 291);
    assert_eq!(note, "300 stations, 291 of them predictable");
    assert!(error.is_none());
    let (note, error) = tally(4, 0);
    assert_eq!(note, "4 stations, 0 of them predictable");
    assert_eq!(error.as_deref(), Some("nothing in the region can be predicted"));
}
