//! Reading NOAA CO-OPS documents: where they are, and the decisions made
//! on what they say.
//!
//! Everything omatide knows about a station comes from the metadata
//! service at `api.tidesandcurrents.noaa.gov/mdapi`.

use vstd::prelude::*;
use vstd::string::StringExecFns;
use crate::strings::{owned, push_decimal, push_char, decimal, chars_of};
use crate::order::{first_of_each, is_first_of_each, key_view};
use crate::station::{Station, HeightRule, station_key};
use crate::strings::str_eq;

verus! {

broadcast use vstd::string::group_string_axioms;

pub const MDAPI: &'static str = "https://api.tidesandcurrents.noaa.gov/mdapi/prod/webapi/stations";

/// Every tide station NOAA predicts.
pub fn tide_stations_url() -> (r: String)
    ensures
        r@ == MDAPI@ + ".json?type=tidepredictions"@,
{
    let mut u = owned(MDAPI);
    u.append(".json?type=tidepredictions");
    u
}

/// Every current station NOAA predicts, one row per bin.
pub fn current_stations_url() -> (r: String)
    ensures
        r@ == MDAPI@ + ".json?type=currentpredictions&units=metric"@,
{
    let mut u = owned(MDAPI);
    u.append(".json?type=currentpredictions&units=metric");
    u
}

/// `MDAPI/{id}{document}`.
fn station_document(id: &str, document: &str) -> (r: String)
    ensures
        r@ == MDAPI@ + "/"@ + id@ + document@,
{
    let mut u = owned(MDAPI);
    u.append("/");
    u.append(id);
    u.append(document);
    u
}

/// A station's harmonic constants.
pub fn harcon_url(id: &str) -> (r: String)
    ensures
        r@ == MDAPI@ + "/"@ + id@ + "/harcon.json?units=metric"@,
{
    station_document(id, "/harcon.json?units=metric")
}

/// A tide station's datums.
pub fn datums_url(id: &str) -> (r: String)
    ensures
        r@ == MDAPI@ + "/"@ + id@ + "/datums.json?units=metric"@,
{
    station_document(id, "/datums.json?units=metric")
}

/// A tide station's offsets from its reference.
pub fn tide_offsets_url(id: &str) -> (r: String)
    ensures
        r@ == MDAPI@ + "/"@ + id@ + "/tidepredoffsets.json?units=metric"@,
{
    station_document(id, "/tidepredoffsets.json?units=metric")
}

/// Current metadata is asked for per bin, with an underscore.
pub fn current_offsets_url(id: &str, bin: u32) -> (r: String)
    ensures
        r@ == MDAPI@ + "/"@ + id@ + "_"@ + decimal(bin as nat) + "/currentpredictionoffsets.json"@,
{
    let mut u = owned(MDAPI);
    u.append("/");
    u.append(id);
    u.append("_");
    push_decimal(&mut u, bin as u64);
    u.append("/currentpredictionoffsets.json");
    u
}

/// How a listing is ordered: by id, then by bin, with no bin first.
pub open spec fn listing_key(s: Station) -> (Seq<char>, u64) {
    (s.id@, match s.bin {
        Some(b) => (b as u64 + 1) as u64,
        None => 0,
    })
}

/// The listing key of station `k` is at one of the places in `order`.
pub open spec fn is_listed(stations: Seq<Station>, order: Seq<usize>, k: int) -> bool {
    exists|q: int| 0 <= q < order.len() && listing_key(stations[order[q] as int]) == listing_key(stations[k])
}

/// Bin `k` is at one of the places in `order`.
pub open spec fn bin_listed(bins: Seq<u32>, order: Seq<usize>, k: int) -> bool {
    exists|q: int| 0 <= q < order.len() && bins[order[q] as int] == bins[k]
}

/// The stations of a listing to keep, and in what order: sorted by id
/// and bin, and where NOAA lists one bin twice, only the first.
pub fn listing_order(stations: &Vec<Station>) -> (order: Vec<usize>)
    ensures
        forall|q: int| 0 <= q < order@.len() ==> order@[q] < stations@.len(),
        forall|q: int, r: int| #![trigger order@[q], order@[r]]
            0 <= q < r < order@.len() ==> crate::order::pair_lt(listing_key(stations@[order@[q] as int]), listing_key(stations@[order@[r] as int])),
        forall|k: int| 0 <= k < stations@.len() ==> #[trigger] is_listed(stations@, order@, k),
        forall|q: int, k: int| #![trigger order@[q], stations@[k]]
            0 <= q < order@.len() && 0 <= k < order@[q] ==> listing_key(stations@[k]) != listing_key(stations@[order@[q] as int]),
{
    let mut keys: Vec<(Vec<char>, u64)> = Vec::new();
    let mut i: usize = 0;
    while i < stations.len()
        invariant
            i <= stations@.len(),
            keys@.len() == i,
            forall|j: int| 0 <= j < i ==> key_view(#[trigger] keys@[j]) == listing_key(stations@[j]),
        decreases stations@.len() - i,
    {
        let s = &stations[i];
        let code: u64 = match s.bin {
            Some(b) => b as u64 + 1,
            None => 0,
        };
        keys.push((chars_of(s.id.as_str()), code));
        i += 1;
    }
    let order = first_of_each(&keys);
    proof {
        assert forall|k: int| 0 <= k < stations@.len() implies #[trigger] is_listed(stations@, order@, k) by {
            assert(crate::order::is_held(keys@, order@, k));
            let q = choose|q: int| 0 <= q < order@.len() && key_view(keys@[order@[q] as int]) == key_view(keys@[k]);
            assert(listing_key(stations@[order@[q] as int]) == listing_key(stations@[k]));
        }
        assert forall|q: int, k: int| #![trigger order@[q], stations@[k]]
            0 <= q < order@.len() && 0 <= k < order@[q] implies listing_key(stations@[k]) != listing_key(stations@[order@[q] as int]) by {
            assert(key_view(keys@[k]) != key_view(keys@[order@[q] as int]));
        }
    }
    order
}

/// The bins a current station's constants cover, each once: the places
/// of their first mention, in order of bin.
pub fn bins_order(bins: &Vec<u32>) -> (order: Vec<usize>)
    ensures
        forall|q: int| 0 <= q < order@.len() ==> order@[q] < bins@.len(),
        forall|q: int, r: int| #![trigger order@[q], order@[r]]
            0 <= q < r < order@.len() ==> bins@[order@[q] as int] < bins@[order@[r] as int],
        forall|k: int| 0 <= k < bins@.len() ==> #[trigger] bin_listed(bins@, order@, k),
        forall|q: int, k: int| #![trigger order@[q], bins@[k]]
            0 <= q < order@.len() && 0 <= k < order@[q] ==> bins@[k] != bins@[order@[q] as int],
{
    let mut keys: Vec<(Vec<char>, u64)> = Vec::new();
    let mut i: usize = 0;
    while i < bins.len()
        invariant
            i <= bins@.len(),
            keys@.len() == i,
            forall|j: int| 0 <= j < i ==> key_view(#[trigger] keys@[j]) == (Seq::<char>::empty(), bins@[j] as u64),
        decreases bins@.len() - i,
    {
        keys.push((Vec::new(), bins[i] as u64));
        i += 1;
    }
    let order = first_of_each(&keys);
    proof {
        assert forall|q: int, r: int| #![trigger order@[q], order@[r]]
            0 <= q < r < order@.len() implies bins@[order@[q] as int] < bins@[order@[r] as int] by {
            assert(crate::order::pair_lt(key_view(keys@[order@[q] as int]), key_view(keys@[order@[r] as int])));
            crate::order::lemma_lex_irreflexive(Seq::<char>::empty());
        }
        assert forall|k: int| 0 <= k < bins@.len() implies #[trigger] bin_listed(bins@, order@, k) by {
            assert(crate::order::is_held(keys@, order@, k));
            let q = choose|q: int| 0 <= q < order@.len() && key_view(keys@[order@[q] as int]) == key_view(keys@[k]);
            assert(bins@[order@[q] as int] == bins@[k]);
        }
        assert forall|q: int, k: int| #![trigger order@[q], bins@[k]]
            0 <= q < order@.len() && 0 <= k < order@[q] implies bins@[k] != bins@[order@[q] as int] by {
            assert(key_view(keys@[k]) != key_view(keys@[order@[q] as int]));
        }
    }
    order
}


// ------------------------------------------------------------ offsets

/// The reference a tide station's offsets document names, if it follows
/// one: a reference station's own document names none, or names itself.
pub open spec fn tide_reference_spec(named: Option<Seq<char>>, id: Seq<char>) -> Option<Seq<char>> {
    match named {
        Some(r) => if r.len() > 0 && r != id { Some(r) } else { None },
        None => None,
    }
}

/// Which station a tide station follows, from the `refStationId` its
/// offsets document gives.
pub fn tide_reference(named: Option<&str>, id: &str) -> (r: Option<String>)
    ensures
        match r {
            Some(x) => tide_reference_spec(match named { Some(n) => Some(n@), None => None }, id@) == Some(x@),
            None => tide_reference_spec(match named { Some(n) => Some(n@), None => None }, id@) is None,
        },
{
    match named {
        Some(n) => {
            if n.is_empty() || str_eq(n, id) {
                None
            } else {
                Some(owned(n))
            }
        },
        None => None,
    }
}

/// How a subordinate tide station's heights follow its reference's:
/// `heightAdjustedType` `R` is a ratio, anything else meters added.
pub fn height_rule(adjusted: Option<&str>) -> (r: HeightRule)
    ensures
        r == (match adjusted {
            Some(a) => if a@ == "R"@ { HeightRule::Ratio } else { HeightRule::Add },
            None => HeightRule::Add,
        }),
{
    match adjusted {
        Some(a) => if str_eq(a, "R") { HeightRule::Ratio } else { HeightRule::Add },
        None => HeightRule::Add,
    }
}

/// The reference a current station's offsets document names: the bin
/// of it where a bin is given. A harmonic current station names itself,
/// with every adjustment left null; that is no reference.
pub open spec fn current_reference_spec(named: Option<Seq<char>>, bin: Option<u32>, key: Seq<char>) -> Option<Seq<char>> {
    match named {
        Some(r) => if r.len() == 0 {
            None
        } else if station_key(r, bin) == key {
            None
        } else {
            Some(station_key(r, bin))
        },
        None => None,
    }
}

/// Which station a current station follows, from the `refStationId` and
/// `refStationBin` its offsets document gives; `key` is its own.
pub fn current_reference(named: Option<&str>, bin: Option<u32>, key: &str) -> (r: Option<String>)
    ensures
        match r {
            Some(x) => current_reference_spec(match named { Some(n) => Some(n@), None => None }, bin, key@) == Some(x@),
            None => current_reference_spec(match named { Some(n) => Some(n@), None => None }, bin, key@) is None,
        },
{
    match named {
        Some(n) => {
            if n.is_empty() {
                return None;
            }
            let mut reference = owned(n);
            match bin {
                Some(b) => {
                    push_char(&mut reference, '-');
                    push_decimal(&mut reference, b as u64);
                    assert(reference@ =~= station_key(n@, bin));
                },
                None => {},
            }
            if str_eq(reference.as_str(), key) {
                None
            } else {
                Some(reference)
            }
        },
        None => None,
    }
}

/// A station never follows itself: whatever its offsets document says,
/// the reference read from it is another station.
pub proof fn lemma_never_follows_itself(named: Option<Seq<char>>, bin: Option<u32>, key: Seq<char>, id: Seq<char>)
    ensures
        current_reference_spec(named, bin, key) != Some(key),
        tide_reference_spec(named, id) != Some(id),
{
}

} // verus!
