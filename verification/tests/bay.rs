use omatide::bay::{candidates, p, places, tide_places};
use omatide::station::{Catalog, Kind, Source, Station};

#[test]
fn every_place_names_a_station_and_reads_as_english() {
    let (streams, tides) = (places(), tide_places());
    for place in streams.iter().chain(tides.iter()) {
        assert!(!place.name.is_empty());
        assert!(!place.station.is_empty(), "{}", place.name);
        assert!(!place.station.contains('-'), "{}: bins are chosen, not named", place.name);
        assert!(place.name.len() < 30, "{}", place.name);
    }
    // Each place appears once in its own list.
    for list in [&streams, &tides] {
        for (i, a) in list.iter().enumerate() {
            assert!(!list[..i].iter().any(|b| b.station == a.station), "{} twice", a.station);
        }
    }
}

#[test]
fn the_lists_run_the_way_you_sail_them() {
    let streams = places();
    assert_eq!(streams.len(), 22);
    assert_eq!(streams[0].name, "Point Bonita");
    assert_eq!(streams[1].station, "SFB1202");
    let tides = tide_places();
    assert_eq!(tides.len(), 13);
    assert_eq!(tides[0].station, "9414290");
    let q = p("a", "b", "c");
    assert_eq!((q.name, q.station, q.note), ("a", "b", "c"));
}

#[test]
fn a_place_is_offered_only_the_bins_that_can_be_predicted() {
    let mut c = Catalog::new();
    for n in [1, 6, 9] {
        c.stations.push(Station {
            id: "SFB1212".into(),
            bin: Some(n),
            name: "Raccoon Strait".into(),
            kind: Kind::Current,
            source: Source::Harmonic,
        });
    }
    c.insert_harmonics("SFB1212-1".into());
    c.insert_harmonics("SFB1212-9".into());
    assert_eq!(candidates(&c, "SFB1212"), [0, 2]);
    assert!(candidates(&c, "SFB9999").is_empty());
}
