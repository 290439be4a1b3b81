//! Predicting at a station, whichever sort it is.
//!
//! Everything above this module names a station and a time; whether that
//! station has its own constants or follows another one is settled here,
//! with the error a question gets when it can't be answered.

use vstd::prelude::*;
use vstd::string::StringExecFns;
use crate::station::{Catalog, Kind, Source, Station, is_first_with_key, has_key};
use crate::strings::owned;

verus! {

/// What a prediction at a station rests on: the station, and the key of
/// the constants it is predicted from, its own or its reference's.
pub struct Resolved {
    /// Where the station sits in the catalog.
    pub station: usize,
    /// The key whose constants the prediction uses.
    pub constants: String,
}

/// The station a key names, and the constants its predictions come from.
pub open spec fn resolve_spec(catalog: Catalog, key: Seq<char>) -> Result<(int, Seq<char>), Seq<char>> {
    if !has_key(catalog.stations@, key) {
        Err("no station "@ + key)
    } else {
        let i = choose|i: int| is_first_with_key(catalog.stations@, key, i);
        let s = catalog.stations@[i];
        match s.spec_reference() {
            Some(r) => if catalog.constant_keys().contains(r) {
                Ok((i, r))
            } else {
                Err(key + " follows "@ + r + ", which isn't in the catalog"@)
            },
            None => if catalog.constant_keys().contains(key) {
                Ok((i, key))
            } else {
                Err(key + " has no harmonic constants"@)
            },
        }
    }
}

/// The error for asking a station of one kind a question for the other.
pub open spec fn wrong_kind_spec(s: Station, wanted: Kind) -> Option<Seq<char>> {
    if s.kind != wanted {
        Some(s.spec_key() + " is a "@ + s.kind.spec_name() + " station, not a "@ + wanted.spec_name() + " one"@)
    } else {
        None
    }
}

/// The error for a station whose offsets are of the other kind.
pub open spec fn wrong_offsets_spec(s: Station, key: Seq<char>, wanted: Kind) -> Option<Seq<char>> {
    match (wanted, s.source) {
        (Kind::Tide, Source::Current { .. }) => Some(key + " has current offsets on a tide"@),
        (Kind::Current, Source::Tide { .. }) => Some(key + " has tide offsets on a current"@),
        _ => None,
    }
}

/// What a question of a kind about the station with a key rests on, or
/// why it can't be answered.
pub open spec fn prepare_spec(catalog: Catalog, key: Seq<char>, wanted: Kind) -> Result<(int, Seq<char>), Seq<char>> {
    match resolve_spec(catalog, key) {
        Err(e) => Err(e),
        Ok((i, c)) => match wrong_kind_spec(catalog.stations@[i], wanted) {
            Some(e) => Err(e),
            None => match wrong_offsets_spec(catalog.stations@[i], key, wanted) {
                Some(e) => Err(e),
                None => Ok((i, c)),
            },
        },
    }
}

/// The station, and the constants its predictions come from.
pub fn resolve(catalog: &Catalog, key: &str) -> (r: Result<Resolved, String>)
    ensures
        match r {
            Ok(x) => resolve_spec(*catalog, key@) == Ok::<(int, Seq<char>), Seq<char>>((x.station as int, x.constants@)),
            Err(e) => resolve_spec(*catalog, key@) == Err::<(int, Seq<char>), Seq<char>>(e@),
        },
{
    match catalog.position(key) {
        None => {
            let mut e = owned("no station ");
            e.append(key);
            Err(e)
        },
        Some(i) => {
            proof {
                let j = choose|j: int| is_first_with_key(catalog.stations@, key@, j);
                if j < i {
                } else if j > i {
                }
                assert(j == i);
            }
            match catalog.stations[i].reference() {
                Some(reference) => {
                    if catalog.has_harmonics(reference) {
                        Ok(Resolved { station: i, constants: owned(reference) })
                    } else {
                        let mut e = owned(key);
                        e.append(" follows ");
                        e.append(reference);
                        e.append(", which isn't in the catalog");
                        Err(e)
                    }
                },
                None => {
                    if catalog.has_harmonics(key) {
                        Ok(Resolved { station: i, constants: owned(key) })
                    } else {
                        let mut e = owned(key);
                        e.append(" has no harmonic constants");
                        Err(e)
                    }
                },
            }
        },
    }
}

/// The error for asking a station of one kind a question for the other.
pub fn wrong_kind(station: &Station, wanted: Kind) -> (r: Option<String>)
    ensures
        match r {
            Some(e) => wrong_kind_spec(*station, wanted) == Some(e@),
            None => wrong_kind_spec(*station, wanted) is None,
        },
{
    if station.kind != wanted {
        let mut e = station.key();
        e.append(" is a ");
        e.append(station.kind.name());
        e.append(" station, not a ");
        e.append(wanted.name());
        e.append(" one");
        Some(e)
    } else {
        None
    }
}

/// What a question of a kind about a station rests on: the station, the
/// constants it is predicted from, and that it is of the kind asked and
/// has no offsets of the other kind.
pub fn prepare(catalog: &Catalog, key: &str, wanted: Kind) -> (r: Result<Resolved, String>)
    ensures
        match r {
            Ok(x) => prepare_spec(*catalog, key@, wanted) == Ok::<(int, Seq<char>), Seq<char>>((x.station as int, x.constants@)),
            Err(e) => prepare_spec(*catalog, key@, wanted) == Err::<(int, Seq<char>), Seq<char>>(e@),
        },
{
    let resolved = resolve(catalog, key)?;
    proof {
        crate::station::lemma_first_with_key(catalog.stations@, key@);
    }
    let station = &catalog.stations[resolved.station];
    if let Some(e) = wrong_kind(station, wanted) {
        return Err(e);
    }
    match (wanted, &station.source) {
        (Kind::Tide, Source::Current { .. }) => {
            let mut e = owned(key);
            e.append(" has current offsets on a tide");
            Err(e)
        },
        (Kind::Current, Source::Tide { .. }) => {
            let mut e = owned(key);
            e.append(" has tide offsets on a current");
            Err(e)
        },
        _ => Ok(resolved),
    }
}

/// A question is answered from the first station with the key, when
/// that station is of the kind asked and the constants it rests on are
/// in the catalog: its own, under its key, when it is harmonic, or its
/// reference's when it follows a station of its own kind. A harmonic
/// station of either kind, tide or current, is never refused.
pub proof fn lemma_prepared(catalog: Catalog, key: Seq<char>, wanted: Kind, i: int)
    requires
        is_first_with_key(catalog.stations@, key, i),
        catalog.stations@[i].kind == wanted,
    ensures
        catalog.stations@[i].source is Harmonic && catalog.constant_keys().contains(key)
            ==> prepare_spec(catalog, key, wanted) == Ok::<(int, Seq<char>), Seq<char>>((i, key)),
        (match catalog.stations@[i].source {
            Source::Tide { reference } => wanted == Kind::Tide && catalog.constant_keys().contains(reference@),
            Source::Current { reference } => wanted == Kind::Current && catalog.constant_keys().contains(reference@),
            Source::Harmonic => false,
        }) ==> prepare_spec(catalog, key, wanted) == Ok::<(int, Seq<char>), Seq<char>>((i, catalog.stations@[i].spec_reference()->0)),
        prepare_spec(catalog, key, wanted) is Err ==> (match catalog.stations@[i].source {
            Source::Harmonic => !catalog.constant_keys().contains(key),
            Source::Tide { reference } => wanted != Kind::Tide || !catalog.constant_keys().contains(reference@),
            Source::Current { reference } => wanted != Kind::Current || !catalog.constant_keys().contains(reference@),
        }),
{
    let j = choose|j: int| is_first_with_key(catalog.stations@, key, j);
    if j < i {
    } else if i < j {
    }
    assert(j == i);
    assert(has_key(catalog.stations@, key));
}

/// The first turn after a moment.
fn first_after(times: &Vec<i64>, at: i64) -> (r: Option<usize>)
    ensures
        match r {
            Some(i) => i < times@.len() && times@[i as int] > at
                && forall|j: int| 0 <= j < i ==> #[trigger] times@[j] <= at,
            None => forall|j: int| 0 <= j < times@.len() ==> #[trigger] times@[j] <= at,
        },
{
    let mut i: usize = 0;
    while i < times.len()
        invariant
            i <= times@.len(),
            forall|j: int| 0 <= j < i ==> #[trigger] times@[j] <= at,
        decreases times@.len() - i,
    {
        if times[i] > at {
            return Some(i);
        }
        i += 1;
    }
    None
}

/// The last turn at or before a moment.
fn last_until(times: &Vec<i64>, at: i64) -> (r: Option<usize>)
    ensures
        match r {
            Some(i) => i < times@.len() && times@[i as int] <= at
                && forall|j: int| i < j < times@.len() ==> #[trigger] times@[j] > at,
            None => forall|j: int| 0 <= j < times@.len() ==> #[trigger] times@[j] > at,
        },
{
    let mut k: usize = times.len();
    while k > 0
        invariant
            k <= times@.len(),
            forall|j: int| k <= j < times@.len() ==> #[trigger] times@[j] > at,
        decreases k,
    {
        if times[k - 1] <= at {
            return Some(k - 1);
        }
        k -= 1;
    }
    None
}

/// The turn before and the turn after a moment, which is what a bar
/// widget has room for: the last at or before it, and the first after.
/// Exactly on a turn, that turn has just passed.
pub fn around(times: &Vec<i64>, at: i64) -> (r: (Option<usize>, Option<usize>))
    ensures
        match r.0 {
            Some(i) => i < times@.len() && times@[i as int] <= at
                && forall|j: int| i < j < times@.len() ==> #[trigger] times@[j] > at,
            None => forall|j: int| 0 <= j < times@.len() ==> #[trigger] times@[j] > at,
        },
        match r.1 {
            Some(i) => i < times@.len() && times@[i as int] > at
                && forall|j: int| 0 <= j < i ==> #[trigger] times@[j] <= at,
            None => forall|j: int| 0 <= j < times@.len() ==> #[trigger] times@[j] <= at,
        },
{
    (last_until(times, at), first_after(times, at))
}

} // verus!
