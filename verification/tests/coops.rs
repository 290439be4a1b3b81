use omatide::coops::{
    bins_order, current_offsets_url, current_reference, current_stations_url, datums_url, harcon_url,
    height_rule, listing_order, tide_offsets_url, tide_reference, tide_stations_url, MDAPI,
};
use omatide::station::{HeightRule, Kind, Source, Station};

#[test]
fn urls_name_noaas_documents() {
    let base = "https://api.tidesandcurrents.noaa.gov/mdapi/prod/webapi/stations";
    assert_eq!(MDAPI, base);
    assert_eq!(tide_stations_url(), format!("{base}.json?type=tidepredictions"));
    assert_eq!(current_stations_url(), format!("{base}.json?type=currentpredictions&units=metric"));
    assert_eq!(harcon_url("9414290"), format!("{base}/9414290/harcon.json?units=metric"));
    assert_eq!(datums_url("9414290"), format!("{base}/9414290/datums.json?units=metric"));
    assert_eq!(tide_offsets_url("9414806"), format!("{base}/9414806/tidepredoffsets.json?units=metric"));
    assert_eq!(current_offsets_url("PCT0291", 1), format!("{base}/PCT0291_1/currentpredictionoffsets.json"));
    assert_eq!(current_offsets_url("SFB1202", 17), format!("{base}/SFB1202_17/currentpredictionoffsets.json"));
}

#[test]
fn a_station_with_no_reference_stays_harmonic() {
    assert_eq!(tide_reference(Some(""), "9414290"), None);
    assert_eq!(tide_reference(None, "9414290"), None);
    assert_eq!(current_reference(Some(""), None, "SFB1202-1"), None);
    assert_eq!(current_reference(None, Some(3), "SFB1202-1"), None);
}

#[test]
fn a_station_that_names_itself_is_its_own_authority() {
    // NOAA's harmonic current stations do exactly this.
    assert_eq!(current_reference(Some("PCT0666"), Some(2), "PCT0666-2"), None);
    // Another bin of the same station is a real reference, though.
    assert_eq!(current_reference(Some("PCT0666"), Some(2), "PCT0666-1").as_deref(), Some("PCT0666-2"));
    // And a tide station that names itself stays harmonic.
    assert_eq!(tide_reference(Some("9414290"), "9414290"), None);
}

#[test]
fn sausalito_follows_san_francisco_by_a_ratio() {
    assert_eq!(tide_reference(Some("9414290"), "9414806").as_deref(), Some("9414290"));
    assert_eq!(height_rule(Some("R")), HeightRule::Ratio);
    assert_eq!(height_rule(Some("F")), HeightRule::Add);
    assert_eq!(height_rule(None), HeightRule::Add);
}

#[test]
fn alcatraz_follows_the_gate_bin_by_bin() {
    // The reference carries its bin, because bins differ.
    assert_eq!(current_reference(Some("SFB1202"), Some(17), "PCT0291-1").as_deref(), Some("SFB1202-17"));
    assert_eq!(current_reference(Some("SFB1202"), None, "PCT0291-1").as_deref(), Some("SFB1202"));
}

fn row(id: &str, bin: Option<u32>) -> Station {
    Station { id: id.into(), bin, name: id.into(), kind: Kind::Current, source: Source::Harmonic }
}

#[test]
fn a_listing_is_sorted_and_keeps_each_bin_once() {
    let rows = vec![row("SFB1212", Some(9)), row("9414290", None), row("SFB1212", Some(1)), row("SFB1212", Some(9))];
    assert_eq!(listing_order(&rows), [1, 2, 0]);
    assert!(listing_order(&Vec::new()).is_empty());
}

#[test]
fn bins_come_once_each_in_order() {
    assert_eq!(bins_order(&vec![9, 1, 9, 6, 1]), [1, 3, 0]);
}
