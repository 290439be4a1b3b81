//! San Francisco Bay: the places a sailor actually names, pointed at the
//! NOAA stations that describe them.
//!
//! The bay is not one tide. High water at the Golden Gate reaches Port
//! Chicago an hour and three quarters later and a third of a meter
//! lower, and the stream that is slack off Alcatraz is still ebbing hard
//! through Raccoon Strait. The order of each list runs the way you sail
//! it: in from the sea, up the bay to the delta, then back down the east
//! shore to the south bay.

use vstd::prelude::*;
use crate::station::{Catalog, Station};
use crate::strings::str_eq;

verus! {

/// A place on the bay, and the station that speaks for it.
#[derive(Clone, Copy, Debug)]
pub struct Place {
    pub name: &'static str,
    /// The NOAA station, without a bin: the bin is chosen by depth.
    pub station: &'static str,
    /// What a sailor should know about the stream here.
    pub note: &'static str,
}

pub fn p(name: &'static str, station: &'static str, note: &'static str) -> (r: Place)
    ensures
        r.name == name,
        r.station == station,
        r.note == note,
{
    Place { name, station, note }
}

/// The bay's narrows and reaches, in the order you sail them.
pub open spec fn places_spec() -> Seq<Place> {
    seq![
        Place { name: "Point Bonita", station: "SFB1220", note: "the ebb sets out over the bar; the potato patch breaks north of it" },
        Place { name: "Golden Gate", station: "SFB1202", note: "the strongest stream in the bay, and the reference the rest follow" },
        Place { name: "Fort Point", station: "PCT0261", note: "a back eddy floods along the south shore while the channel still ebbs" },
        Place { name: "Alcatraz, south", station: "SFB1204", note: "where the Golden Gate's stream splits for the south bay and the estuary" },
        Place { name: "Alcatraz, north", station: "SFB1211", note: "the road to Raccoon Strait" },
        Place { name: "Raccoon Strait", station: "SFB1212", note: "runs hard between Angel Island and Tiburon, and turns before the Golden Gate" },
        Place { name: "Point Stuart", station: "PCT0606", note: "the west end of Raccoon Strait, off Angel Island" },
        Place { name: "Point Blunt", station: "PCT0561", note: "the southeast corner of Angel Island, with a rip on the ebb" },
        Place { name: "Southampton Shoal", station: "s08010", note: "the channel east of Angel Island" },
        Place { name: "Point Chauncey", station: "SFB1309", note: "the way into San Pablo Bay, west of the Brothers" },
        Place { name: "Richmond", station: "PCT0666", note: "off the harbor entrance" },
        Place { name: "Red Rock", station: "PCT0671", note: "under the Richmond bridge, where San Pablo Bay narrows" },
        Place { name: "Point San Pablo", station: "SFB1312", note: "midchannel into San Pablo Bay" },
        Place { name: "Pinole Shoal", station: "SFB1315", note: "the dredged channel across the shallows" },
        Place { name: "Carquinez Strait", station: "SFB1319", note: "the river's own current adds to the ebb all year" },
        Place { name: "Benicia Bridge", station: "s06010", note: "the head of the strait" },
        Place { name: "Treasure Island", station: "SFB1210", note: "the north side of the island" },
        Place { name: "Yerba Buena Island", station: "SFB1209", note: "midchannel, under the east span" },
        Place { name: "Bay Bridge", station: "SFB1208", note: "between the western spans" },
        Place { name: "Hunters Point", station: "SFB1308", note: "the south bay above the shoals" },
        Place { name: "San Mateo Bridge", station: "SFB1305", note: "the south bay narrows" },
        Place { name: "Dumbarton Bridge", station: "SFB1301", note: "the head of the south bay" },
    ]
}

/// The tide stations up the bay, in the order the tide reaches them.
pub open spec fn tide_places_spec() -> Seq<Place> {
    seq![
        Place { name: "Golden Gate", station: "9414290", note: "the bay's reference station" },
        Place { name: "Sausalito", station: "9414806", note: "ten minutes behind the Golden Gate" },
        Place { name: "Alcatraz", station: "9414792", note: "" },
        Place { name: "Berkeley", station: "9414816", note: "the marina Dash lies in" },
        Place { name: "Alameda", station: "9414750", note: "" },
        Place { name: "Richmond", station: "9414863", note: "" },
        Place { name: "Point Chauncey", station: "9414837", note: "" },
        Place { name: "Pinole Point", station: "9415056", note: "" },
        Place { name: "Martinez", station: "9415102", note: "" },
        Place { name: "Port Chicago", station: "9415144", note: "an hour and three quarters behind the Golden Gate" },
        Place { name: "Rio Vista", station: "9415316", note: "up the Sacramento, and river-fed" },
        Place { name: "Redwood City", station: "9414523", note: "the south bay's range is the biggest" },
        Place { name: "Dumbarton Bridge", station: "9414509", note: "" },
    ]
}

/// The bay's narrows and reaches, where the stream is worth knowing.
pub fn places() -> (r: Vec<Place>)
    ensures
        r@ == places_spec(),
{
    vec![
        p("Point Bonita", "SFB1220", "the ebb sets out over the bar; the potato patch breaks north of it"),
        p("Golden Gate", "SFB1202", "the strongest stream in the bay, and the reference the rest follow"),
        p("Fort Point", "PCT0261", "a back eddy floods along the south shore while the channel still ebbs"),
        p("Alcatraz, south", "SFB1204", "where the Golden Gate's stream splits for the south bay and the estuary"),
        p("Alcatraz, north", "SFB1211", "the road to Raccoon Strait"),
        p("Raccoon Strait", "SFB1212", "runs hard between Angel Island and Tiburon, and turns before the Golden Gate"),
        p("Point Stuart", "PCT0606", "the west end of Raccoon Strait, off Angel Island"),
        p("Point Blunt", "PCT0561", "the southeast corner of Angel Island, with a rip on the ebb"),
        p("Southampton Shoal", "s08010", "the channel east of Angel Island"),
        p("Point Chauncey", "SFB1309", "the way into San Pablo Bay, west of the Brothers"),
        p("Richmond", "PCT0666", "off the harbor entrance"),
        p("Red Rock", "PCT0671", "under the Richmond bridge, where San Pablo Bay narrows"),
        p("Point San Pablo", "SFB1312", "midchannel into San Pablo Bay"),
        p("Pinole Shoal", "SFB1315", "the dredged channel across the shallows"),
        p("Carquinez Strait", "SFB1319", "the river's own current adds to the ebb all year"),
        p("Benicia Bridge", "s06010", "the head of the strait"),
        p("Treasure Island", "SFB1210", "the north side of the island"),
        p("Yerba Buena Island", "SFB1209", "midchannel, under the east span"),
        p("Bay Bridge", "SFB1208", "between the western spans"),
        p("Hunters Point", "SFB1308", "the south bay above the shoals"),
        p("San Mateo Bridge", "SFB1305", "the south bay narrows"),
        p("Dumbarton Bridge", "SFB1301", "the head of the south bay"),
    ]
}

/// Tide stations that show the wave marching up the bay: high water
/// takes the best part of two hours to travel from the Golden Gate to Suisun.
pub fn tide_places() -> (r: Vec<Place>)
    ensures
        r@ == tide_places_spec(),
{
    vec![
        p("Golden Gate", "9414290", "the bay's reference station"),
        p("Sausalito", "9414806", "ten minutes behind the Golden Gate"),
        p("Alcatraz", "9414792", ""),
        p("Berkeley", "9414816", "the marina Dash lies in"),
        p("Alameda", "9414750", ""),
        p("Richmond", "9414863", ""),
        p("Point Chauncey", "9414837", ""),
        p("Pinole Point", "9415056", ""),
        p("Martinez", "9415102", ""),
        p("Port Chicago", "9415144", "an hour and three quarters behind the Golden Gate"),
        p("Rio Vista", "9415316", "up the Sacramento, and river-fed"),
        p("Redwood City", "9414523", "the south bay's range is the biggest"),
        p("Dumbarton Bridge", "9414509", ""),
    ]
}

/// The stations of one id, bin by bin, that can be predicted: what the
/// bin for a place is chosen from.
pub fn candidates(catalog: &Catalog, id: &str) -> (r: Vec<usize>)
    ensures
        forall|q: int, w: int| 0 <= q < w < r@.len() ==> r@[q] < r@[w],
        forall|q: int| 0 <= q < r@.len() ==> #[trigger] r@[q] < catalog.stations@.len()
            && catalog.stations@[r@[q] as int].id@ == id@
            && catalog.spec_is_ready(catalog.stations@[r@[q] as int].spec_key()),
        forall|i: int| 0 <= i < catalog.stations@.len() && #[trigger] catalog.stations@[i].id@ == id@
            && catalog.spec_is_ready(catalog.stations@[i].spec_key())
            ==> exists|q: int| 0 <= q < r@.len() && r@[q] == i,
{
    let mut r: Vec<usize> = Vec::new();
    let mut i: usize = 0;
    while i < catalog.stations.len()
        invariant
            i <= catalog.stations@.len(),
            forall|q: int, w: int| 0 <= q < w < r@.len() ==> r@[q] < r@[w],
            forall|q: int| 0 <= q < r@.len() ==> #[trigger] r@[q] < i
                && catalog.stations@[r@[q] as int].id@ == id@
                && catalog.spec_is_ready(catalog.stations@[r@[q] as int].spec_key()),
            forall|j: int| 0 <= j < i && #[trigger] catalog.stations@[j].id@ == id@
                && catalog.spec_is_ready(catalog.stations@[j].spec_key())
                ==> exists|q: int| 0 <= q < r@.len() && r@[q] == j,
        decreases catalog.stations@.len() - i,
    {
        let s: &Station = &catalog.stations[i];
        let ghost before = r@;
        if str_eq(s.id.as_str(), id) {
            let key = s.key();
            if catalog.is_ready(key.as_str()) {
                r.push(i);
                proof {
                    assert forall|q: int| 0 <= q < r@.len() implies #[trigger] r@[q] < i + 1
                        && catalog.stations@[r@[q] as int].id@ == id@
                        && catalog.spec_is_ready(catalog.stations@[r@[q] as int].spec_key()) by {
                        if q < before.len() {
                            assert(r@[q] == before[q]);
                        }
                    }
                    assert forall|q: int, w: int| 0 <= q < w < r@.len() implies r@[q] < r@[w] by {
                        assert(r@[q] == before[q]);
                        if w < before.len() {
                            assert(r@[w] == before[w]);
                        }
                    }
                    assert forall|j: int| 0 <= j < i + 1 && #[trigger] catalog.stations@[j].id@ == id@
                        && catalog.spec_is_ready(catalog.stations@[j].spec_key())
                        implies exists|q: int| 0 <= q < r@.len() && r@[q] == j by {
                        if j < i {
                            let q = choose|q: int| 0 <= q < before.len() && before[q] == j;
                            assert(r@[q] == j);
                        } else {
                            assert(r@[r@.len() - 1] == j);
                        }
                    }
                }
            }
        }
        i += 1;
    }
    r
}

} // verus!
