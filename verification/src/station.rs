//! The stations omatide predicts from, and the catalog's index of them.
//!
//! There are two sorts. A **harmonic** station has its own constants,
//! measured over years, and can be predicted at any moment. A
//! **subordinate** station has only a set of offsets against a harmonic
//! one. This module holds what decides between them: the station keys,
//! which station follows which, and which keys have constants. The
//! positions, depths and the constants themselves are numbers the
//! predictions work with, and travel beside this index.

use vstd::prelude::*;
use vstd::string::StringExecFns;
use crate::strings::{decimal, push_decimal, str_eq, owned};

verus! {

/// Whether a station reports a water level or a stream.
#[derive(Clone, Copy, Debug, PartialEq, Eq, Structural)]
pub enum Kind {
    Tide,
    Current,
}

impl Kind {
    pub open spec fn spec_name(self) -> Seq<char> {
        match self {
            Kind::Tide => seq!['t', 'i', 'd', 'e'],
            Kind::Current => seq!['c', 'u', 'r', 'r', 'e', 'n', 't'],
        }
    }

    pub open spec fn spec_parse(s: Seq<char>) -> Option<Kind> {
        if s == Kind::Tide.spec_name() {
            Some(Kind::Tide)
        } else if s == Kind::Current.spec_name() {
            Some(Kind::Current)
        } else {
            None
        }
    }

    pub fn name(self) -> (r: &'static str)
        ensures
            r@ == self.spec_name(),
    {
        match self {
            Kind::Tide => {
                proof {
                    reveal_strlit("tide");
                }
                "tide"
            },
            Kind::Current => {
                proof {
                    reveal_strlit("current");
                }
                "current"
            },
        }
    }

    pub fn parse(s: &str) -> (r: Option<Kind>)
        ensures
            r == Kind::spec_parse(s@),
    {
        if str_eq(s, Kind::Tide.name()) {
            Some(Kind::Tide)
        } else if str_eq(s, Kind::Current.name()) {
            Some(Kind::Current)
        } else {
            None
        }
    }
}

/// A kind's name reads back as that kind.
pub proof fn lemma_kind_name_parses(k: Kind)
    ensures
        Kind::spec_parse(k.spec_name()) == Some(k),
{
    assert(Kind::Tide.spec_name() != Kind::Current.spec_name()) by {
        assert(Kind::Tide.spec_name().len() != Kind::Current.spec_name().len());
    }
}

/// How a subordinate station's heights follow its reference.
#[derive(Clone, Copy, Debug, PartialEq, Eq, Structural)]
pub enum HeightRule {
    /// Multiply the reference's height above chart datum.
    Ratio,
    /// Add a fixed number of meters.
    Add,
}

/// Where a station's predictions come from: its own harmonic constants,
/// or offsets against the station named here.
#[derive(Clone, Debug, PartialEq)]
pub enum Source {
    Harmonic,
    Tide { reference: String },
    Current { reference: String },
}

/// A station, by what identifies it and what it follows.
#[derive(Clone, Debug, PartialEq)]
pub struct Station {
    pub id: String,
    /// Current stations are measured in bins down the water column; a
    /// tide station has none.
    pub bin: Option<u32>,
    pub name: String,
    pub kind: Kind,
    pub source: Source,
}

/// `9414290`, or `SFB1212-9` for bin 9 of a current station.
pub open spec fn station_key(id: Seq<char>, bin: Option<u32>) -> Seq<char> {
    match bin {
        Some(b) => id + seq!['-'] + decimal(b as nat),
        None => id,
    }
}

impl Station {
    pub open spec fn spec_key(&self) -> Seq<char> {
        station_key(self.id@, self.bin)
    }

    pub open spec fn spec_reference(&self) -> Option<Seq<char>> {
        match self.source {
            Source::Harmonic => None,
            Source::Tide { reference } => Some(reference@),
            Source::Current { reference } => Some(reference@),
        }
    }

    /// How a station is named in the cache, the protocol and on the
    /// command line.
    pub fn key(&self) -> (r: String)
        ensures
            r@ == self.spec_key(),
    {
        match self.bin {
            Some(bin) => {
                let mut k = self.id.clone();
                crate::strings::push_char(&mut k, '-');
                push_decimal(&mut k, bin as u64);
                k
            },
            None => self.id.clone(),
        }
    }

    /// The reference station's key, for a subordinate station.
    pub fn reference(&self) -> (r: Option<&str>)
        ensures
            match r {
                Some(x) => self.spec_reference() == Some(x@),
                None => self.spec_reference() is None,
            },
    {
        match &self.source {
            Source::Harmonic => None,
            Source::Tide { reference } => Some(reference.as_str()),
            Source::Current { reference } => Some(reference.as_str()),
        }
    }
}

/// What a station's entry in the cache comes to, from the fields that
/// aren't floating point: its id, kind, name and bin, the station it
/// follows, and whether offsets come with it. A station without a name
/// is named by its id.
pub open spec fn entry_spec(
    id: Option<Seq<char>>,
    kind: Option<Seq<char>>,
    name: Option<Seq<char>>,
    bin: Option<u32>,
    reference: Option<Seq<char>>,
    has_offsets: bool,
) -> Result<(Seq<char>, Option<u32>, Seq<char>, Kind, Option<Seq<char>>), Seq<char>> {
    match id {
        None => Err("station has no id"@),
        Some(i) => match (match kind { Some(k) => Kind::spec_parse(k), None => None }) {
            None => Err(i + ": no kind"@),
            Some(k) => if reference is Some && !has_offsets {
                Err(i + ": no offsets"@)
            } else {
                Ok((i, bin, match name { Some(n) => n, None => i }, k, reference))
            },
        },
    }
}

/// A station read back from the cache, but for its floating point.
pub fn read_entry(
    id: Option<&str>,
    kind: Option<&str>,
    name: Option<&str>,
    bin: Option<u32>,
    reference: Option<&str>,
    has_offsets: bool,
) -> (r: Result<Station, String>)
    ensures
        ({
            let spec = entry_spec(
                match id { Some(x) => Some(x@), None => None },
                match kind { Some(x) => Some(x@), None => None },
                match name { Some(x) => Some(x@), None => None },
                bin,
                match reference { Some(x) => Some(x@), None => None },
                has_offsets,
            );
            match r {
                Ok(s) => spec == Ok::<(Seq<char>, Option<u32>, Seq<char>, Kind, Option<Seq<char>>), Seq<char>>(
                    (s.id@, s.bin, s.name@, s.kind, s.spec_reference())),
                Err(e) => spec == Err::<(Seq<char>, Option<u32>, Seq<char>, Kind, Option<Seq<char>>), Seq<char>>(e@),
            }
        }),
        match r {
            Ok(s) => match s.source {
                Source::Harmonic => true,
                Source::Tide { .. } => s.kind == Kind::Tide,
                Source::Current { .. } => s.kind == Kind::Current,
            },
            Err(_) => true,
        },
{
    let i = match id {
        Some(i) => i,
        None => return Err(owned("station has no id")),
    };
    let k = match kind {
        Some(k) => Kind::parse(k),
        None => None,
    };
    let k = match k {
        Some(k) => k,
        None => {
            let mut e = owned(i);
            e.append(": no kind");
            return Err(e);
        },
    };
    let source = match reference {
        None => Source::Harmonic,
        Some(r) => {
            if !has_offsets {
                let mut e = owned(i);
                e.append(": no offsets");
                return Err(e);
            }
            match k {
                Kind::Tide => Source::Tide { reference: owned(r) },
                Kind::Current => Source::Current { reference: owned(r) },
            }
        },
    };
    Ok(Station {
        id: owned(i),
        bin,
        name: owned(match name { Some(n) => n, None => i }),
        kind: k,
        source,
    })
}

/// `i` is the first station in the list with this key.
pub open spec fn is_first_with_key(stations: Seq<Station>, key: Seq<char>, i: int) -> bool {
    &&& 0 <= i < stations.len()
    &&& stations[i].spec_key() == key
    &&& forall|j: int| 0 <= j < i ==> stations[j].spec_key() != key
}

/// Some station in the list has this key.
pub open spec fn has_key(stations: Seq<Station>, key: Seq<char>) -> bool {
    exists|i: int| 0 <= i < stations.len() && stations[i].spec_key() == key
}

/// Where some station has a key, a first one has it.
pub proof fn lemma_first_with_key(stations: Seq<Station>, key: Seq<char>)
    requires
        has_key(stations, key),
    ensures
        exists|i: int| is_first_with_key(stations, key, i),
{
    let w = choose|i: int| 0 <= i < stations.len() && stations[i].spec_key() == key;
    lemma_first_below(stations, key, w);
}

proof fn lemma_first_below(stations: Seq<Station>, key: Seq<char>, w: int)
    requires
        0 <= w < stations.len(),
        stations[w].spec_key() == key,
    ensures
        exists|i: int| is_first_with_key(stations, key, i),
    decreases w,
{
    if exists|j: int| 0 <= j < w && stations[j].spec_key() == key {
        let j = choose|j: int| 0 <= j < w && stations[j].spec_key() == key;
        lemma_first_below(stations, key, j);
    } else {
        assert(is_first_with_key(stations, key, w));
    }
}

/// Every station omatide has, and which of them have constants.
#[derive(Clone, Debug)]
pub struct Catalog {
    pub stations: Vec<Station>,
    /// The keys that have harmonic constants.
    pub constants: Vec<String>,
}

impl Catalog {
    /// The keys that have harmonic constants.
    pub open spec fn constant_keys(&self) -> Set<Seq<char>> {
        Set::new(|k: Seq<char>| exists|i: int| 0 <= i < self.constants@.len() && self.constants@[i]@ == k)
    }

    /// Can the station with this key be predicted: is there one, and do
    /// it, or the station it follows, have constants?
    pub open spec fn spec_is_ready(&self, key: Seq<char>) -> bool {
        exists|i: int| #[trigger] is_first_with_key(self.stations@, key, i) && match self.stations@[i].spec_reference() {
            None => self.constant_keys().contains(key),
            Some(r) => self.constant_keys().contains(r),
        }
    }

    /// An empty catalog.
    pub fn new() -> (c: Catalog)
        ensures
            c.stations@.len() == 0,
            c.constant_keys() == Set::<Seq<char>>::empty(),
    {
        let c = Catalog { stations: Vec::new(), constants: Vec::new() };
        assert(c.constant_keys() =~= Set::<Seq<char>>::empty());
        c
    }

    /// Where the first station with this key is.
    pub fn position(&self, key: &str) -> (r: Option<usize>)
        ensures
            match r {
                Some(i) => is_first_with_key(self.stations@, key@, i as int),
                None => !has_key(self.stations@, key@),
            },
    {
        let mut i: usize = 0;
        while i < self.stations.len()
            invariant
                i <= self.stations@.len(),
                forall|j: int| 0 <= j < i ==> self.stations@[j].spec_key() != key@,
            decreases self.stations@.len() - i,
        {
            let k = self.stations[i].key();
            if str_eq(k.as_str(), key) {
                return Some(i);
            }
            i += 1;
        }
        None
    }

    /// The first station with this key.
    pub fn get(&self, key: &str) -> (r: Option<&Station>)
        ensures
            match r {
                Some(s) => exists|i: int| is_first_with_key(self.stations@, key@, i) && self.stations@[i] == *s,
                None => !has_key(self.stations@, key@),
            },
    {
        match self.position(key) {
            Some(i) => Some(&self.stations[i]),
            None => None,
        }
    }

    /// Does this key have harmonic constants of its own?
    pub fn has_harmonics(&self, key: &str) -> (r: bool)
        ensures
            r == self.constant_keys().contains(key@),
    {
        let mut i: usize = 0;
        while i < self.constants.len()
            invariant
                i <= self.constants@.len(),
                forall|j: int| 0 <= j < i ==> self.constants@[j]@ != key@,
            decreases self.constants@.len() - i,
        {
            if str_eq(self.constants[i].as_str(), key) {
                assert(self.constant_keys().contains(key@));
                return true;
            }
            i += 1;
        }
        false
    }

    /// Records that this key has constants.
    pub fn insert_harmonics(&mut self, key: String)
        ensures
            final(self).stations == old(self).stations,
            final(self).constant_keys() == old(self).constant_keys().insert(key@),
    {
        let ghost before = self.constant_keys();
        if !self.has_harmonics(key.as_str()) {
            self.constants.push(key);
        }
        assert(self.constant_keys() =~= before.insert(key@)) by {
            assert forall|k: Seq<char>| self.constant_keys().contains(k) == before.insert(key@).contains(k) by {
                if before.contains(k) {
                    let i = choose|i: int| 0 <= i < old(self).constants@.len() && old(self).constants@[i]@ == k;
                    assert(self.constants@[i]@ == k);
                }
                if k == key@ && !before.contains(k) {
                    let n = self.constants@.len() - 1;
                    assert(self.constants@[n]@ == k);
                }
            }
        }
    }

    /// Can this station actually be predicted?
    pub fn is_ready(&self, key: &str) -> (r: bool)
        ensures
            r == self.spec_is_ready(key@),
    {
        match self.position(key) {
            None => false,
            Some(i) => {
                let station = &self.stations[i];
                let r = match station.reference() {
                    None => self.has_harmonics(key),
                    Some(reference) => self.has_harmonics(reference),
                };
                assert(is_first_with_key(self.stations@, key@, i as int));
                proof {
                    if self.spec_is_ready(key@) {
                        let j = choose|j: int| #[trigger] is_first_with_key(self.stations@, key@, j) && match self.stations@[j].spec_reference() {
                            None => self.constant_keys().contains(key@),
                            Some(r) => self.constant_keys().contains(r),
                        };
                        assert(j == i);
                    }
                }
                r
            },
        }
    }
}

/// The station at one of the places in `r` has this id.
pub open spec fn id_among(stations: Seq<Station>, r: Seq<usize>, id: Seq<char>) -> bool {
    exists|w: int| 0 <= w < r.len() && (r[w] as int) < stations.len() && #[trigger] stations[r[w] as int].id@ == id
}

impl Catalog {
    /// The stations of a kind that can be predicted, in catalog order.
    pub fn ready_of_kind(&self, kind: Kind) -> (r: Vec<usize>)
        ensures
            forall|q: int, w: int| 0 <= q < w < r@.len() ==> r@[q] < r@[w],
            forall|q: int| 0 <= q < r@.len() ==> #[trigger] r@[q] < self.stations@.len()
                && self.stations@[r@[q] as int].kind == kind
                && self.spec_is_ready(self.stations@[r@[q] as int].spec_key()),
            forall|i: int| 0 <= i < self.stations@.len() && self.stations@[i].kind == kind
                && self.spec_is_ready(#[trigger] self.stations@[i].spec_key())
                ==> exists|q: int| 0 <= q < r@.len() && r@[q] == i,
    {
        let mut r: Vec<usize> = Vec::new();
        let mut i: usize = 0;
        while i < self.stations.len()
            invariant
                i <= self.stations@.len(),
                forall|q: int, w: int| 0 <= q < w < r@.len() ==> r@[q] < r@[w],
                forall|q: int| 0 <= q < r@.len() ==> #[trigger] r@[q] < i
                    && self.stations@[r@[q] as int].kind == kind
                    && self.spec_is_ready(self.stations@[r@[q] as int].spec_key()),
                forall|j: int| 0 <= j < i && self.stations@[j].kind == kind
                    && self.spec_is_ready(#[trigger] self.stations@[j].spec_key())
                    ==> exists|q: int| 0 <= q < r@.len() && r@[q] == j,
            decreases self.stations@.len() - i,
        {
            let s = &self.stations[i];
            let ghost before = r@;
            if s.kind == kind {
                let key = s.key();
                if self.is_ready(key.as_str()) {
                    r.push(i);
                    proof {
                        assert forall|q: int| 0 <= q < r@.len() implies #[trigger] r@[q] < i + 1
                            && self.stations@[r@[q] as int].kind == kind
                            && self.spec_is_ready(self.stations@[r@[q] as int].spec_key()) by {
                            if q < before.len() {
                                assert(r@[q] == before[q]);
                            }
                        }
                        assert forall|q: int, w: int| 0 <= q < w < r@.len() implies r@[q] < r@[w] by {
                            if w < before.len() {
                                assert(r@[q] == before[q]);
                                assert(r@[w] == before[w]);
                            } else {
                                assert(r@[q] == before[q]);
                            }
                        }
                        assert forall|j: int| 0 <= j < i + 1 && self.stations@[j].kind == kind
                            && self.spec_is_ready(#[trigger] self.stations@[j].spec_key())
                            implies exists|q: int| 0 <= q < r@.len() && r@[q] == j by {
                            if j < i {
                                let q = choose|q: int| 0 <= q < before.len() && before[q] == j;
                                assert(r@[q] == j);
                            } else {
                                assert(r@[r@.len() - 1] == j);
                            }
                        }
                    }
                }
            }
            i += 1;
        }
        r
    }

    /// Whether the station at one of the places in `r` has this id.
    fn id_seen(&self, r: &Vec<usize>, id: &str) -> (seen: bool)
        requires
            forall|w: int| 0 <= w < r@.len() ==> #[trigger] r@[w] < self.stations@.len(),
        ensures
            seen == id_among(self.stations@, r@, id@),
    {
        let mut q: usize = 0;
        while q < r.len()
            invariant
                q <= r@.len(),
                forall|w: int| 0 <= w < r@.len() ==> #[trigger] r@[w] < self.stations@.len(),
                forall|w: int| 0 <= w < q ==> self.stations@[#[trigger] r@[w] as int].id@ != id@,
            decreases r@.len() - q,
        {
            if str_eq(self.stations[r[q]].id.as_str(), id) {
                assert(self.stations@[r@[q as int] as int].id@ == id@);
                return true;
            }
            q += 1;
        }
        false
    }

    /// The first station of each id of a kind, in catalog order: one
    /// place for each station, whatever number of bins it has.
    pub fn first_of_each_id(&self, kind: Kind) -> (r: Vec<usize>)
        ensures
            firsts_of_kind(self.stations@, kind, r@, self.stations@.len() as int),
    {
        let mut r: Vec<usize> = Vec::new();
        let mut i: usize = 0;
        while i < self.stations.len()
            invariant
                i <= self.stations@.len(),
                firsts_of_kind(self.stations@, kind, r@, i as int),
            decreases self.stations@.len() - i,
        {
            let s = &self.stations[i];
            if s.kind == kind {
                let seen = self.id_seen(&r, s.id.as_str());
                if !seen {
                    proof {
                        lemma_firsts_new(self.stations@, kind, r@, i as int);
                    }
                    r.push(i);
                } else {
                    proof {
                        lemma_firsts_seen(self.stations@, kind, r@, i as int);
                    }
                }
            }
            i += 1;
        }
        r
    }
}

/// `r` holds, in order, the first station of each id of a kind among the
/// first `i` stations.
pub open spec fn firsts_of_kind(stations: Seq<Station>, kind: Kind, r: Seq<usize>, i: int) -> bool {
    &&& forall|q: int, w: int| 0 <= q < w < r.len() ==> r[q] < r[w]
    &&& forall|q: int| 0 <= q < r.len() ==> #[trigger] r[q] < i && i <= stations.len()
        && stations[r[q] as int].kind == kind
        && forall|j: int| 0 <= j < r[q] && stations[j].kind == kind ==> stations[j].id@ != stations[r[q] as int].id@
    &&& forall|k: int| 0 <= k < i && stations[k].kind == kind ==> #[trigger] has_first_at_or_before(stations, r, k)
}

/// Some place in `r`, at or before `k`, holds a station with `k`'s id.
pub open spec fn has_first_at_or_before(stations: Seq<Station>, r: Seq<usize>, k: int) -> bool {
    exists|q: int| 0 <= q < r.len() && r[q] <= k && stations[r[q] as int].id@ == stations[k].id@
}

proof fn lemma_firsts_seen(stations: Seq<Station>, kind: Kind, r: Seq<usize>, i: int)
    requires
        0 <= i < stations.len(),
        firsts_of_kind(stations, kind, r, i),
        id_among(stations, r, stations[i].id@),
    ensures
        firsts_of_kind(stations, kind, r, i + 1),
{
    let w = choose|w: int| 0 <= w < r.len() && (r[w] as int) < stations.len() && #[trigger] stations[r[w] as int].id@ == stations[i].id@;
    assert(r[w] <= i);
    assert(has_first_at_or_before(stations, r, i));
}

proof fn lemma_firsts_new(stations: Seq<Station>, kind: Kind, r: Seq<usize>, i: int)
    requires
        0 <= i < stations.len(),
        i <= usize::MAX,
        stations[i].kind == kind,
        firsts_of_kind(stations, kind, r, i),
        !id_among(stations, r, stations[i].id@),
    ensures
        firsts_of_kind(stations, kind, r.push(i as usize), i + 1),
{
    let after = r.push(i as usize);
    assert forall|j: int| 0 <= j < i && stations[j].kind == kind implies stations[j].id@ != stations[i].id@ by {
        if stations[j].id@ == stations[i].id@ {
            assert(has_first_at_or_before(stations, r, j));
            let w = choose|w: int| 0 <= w < r.len() && r[w] <= j && stations[r[w] as int].id@ == stations[j].id@;
            assert(r[w] < i);
        }
    }
    assert forall|q: int| 0 <= q < after.len() implies #[trigger] after[q] < i + 1 && i + 1 <= stations.len()
        && stations[after[q] as int].kind == kind
        && forall|j: int| 0 <= j < after[q] && stations[j].kind == kind ==> stations[j].id@ != stations[after[q] as int].id@ by {
        if q < r.len() {
            assert(after[q] == r[q]);
        }
    }
    assert forall|q: int, w: int| 0 <= q < w < after.len() implies after[q] < after[w] by {
        assert(after[q] == r[q]);
        if w < r.len() {
            assert(after[w] == r[w]);
        }
    }
    assert forall|k: int| 0 <= k < i + 1 && stations[k].kind == kind
        implies #[trigger] has_first_at_or_before(stations, after, k) by {
        if k < i {
            assert(has_first_at_or_before(stations, r, k));
            let w = choose|w: int| 0 <= w < r.len() && r[w] <= k && stations[r[w] as int].id@ == stations[k].id@;
            assert(after[w] == r[w]);
        } else {
            assert(after[after.len() - 1] == i);
        }
    }
}

impl Default for Catalog {
    fn default() -> (c: Catalog)
        ensures
            c.stations@.len() == 0,
            c.constant_keys() == Set::<Seq<char>>::empty(),
    {
        Catalog::new()
    }
}

} // verus!
