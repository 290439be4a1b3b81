use omatide::station::{Catalog, Kind, Source, Station};
use omatide::tides::{around, prepare, resolve, wrong_kind};

fn catalog() -> Catalog {
    let mut c = Catalog::new();
    let mut push = |id: &str, kind: Kind, source: Source| {
        c.stations.push(Station { id: id.into(), bin: None, name: id.into(), kind, source });
    };
    push("ref", Kind::Tide, Source::Harmonic);
    push("sub", Kind::Tide, Source::Tide { reference: "ref".into() });
    push("stream", Kind::Current, Source::Harmonic);
    push("orphan", Kind::Tide, Source::Harmonic);
    push("lost", Kind::Tide, Source::Tide { reference: "gone".into() });
    push("odd", Kind::Tide, Source::Current { reference: "stream".into() });
    c.insert_harmonics("ref".into());
    c.insert_harmonics("stream".into());
    c
}

#[test]
fn a_subordinate_station_predicts_through_its_reference() {
    let c = catalog();
    let r = prepare(&c, "sub", Kind::Tide).unwrap();
    assert_eq!(r.station, 1);
    assert_eq!(r.constants, "ref");
    let r = prepare(&c, "ref", Kind::Tide).unwrap();
    assert_eq!((r.station, r.constants.as_str()), (0, "ref"));
}

#[test]
fn asking_the_wrong_kind_of_question_is_an_error() {
    let c = catalog();
    let e = |key: &str, kind| prepare(&c, key, kind).err().unwrap();
    assert!(e("ref", Kind::Current).contains("not a current"));
    assert!(e("stream", Kind::Tide).contains("not a tide"));
    assert!(e("nowhere", Kind::Tide).contains("no station"));
    assert!(e("orphan", Kind::Tide).contains("no harmonic constants"));
    assert_eq!(e("ref", Kind::Current), "ref is a tide station, not a current one");
    assert_eq!(e("lost", Kind::Tide), "lost follows gone, which isn't in the catalog");
    assert_eq!(e("odd", Kind::Tide), "odd has current offsets on a tide");
    assert_eq!(resolve(&c, "nowhere").err().unwrap(), "no station nowhere");
    assert!(wrong_kind(&c.stations[0], Kind::Tide).is_none());
}

#[test]
fn the_turns_around_a_moment_are_the_ones_either_side() {
    let turns = vec![100, 200, 300, 400, 500];
    let middle = turns[2];
    let (last, next) = around(&turns, middle + 60);
    assert_eq!(last.map(|i| turns[i]), Some(middle));
    assert_eq!(next.map(|i| turns[i]), Some(turns[3]));
    // Exactly on a turn, that turn has just passed.
    let (last, _) = around(&turns, middle);
    assert_eq!(last.map(|i| turns[i]), Some(middle));
    assert!(around(&turns, 0).0.is_none());
    assert!(around(&turns, 10_000).1.is_none());
    assert_eq!(around(&Vec::new(), 5), (None, None));
}
