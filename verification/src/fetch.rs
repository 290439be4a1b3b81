//! Building the station catalog from NOAA, once, so that everything
//! after it happens offline. The downloads themselves are the caller's;
//! what is decided between them is here: which references the catalog
//! still lacks, what a reference key names, and how a fetch reports.

use vstd::prelude::*;
use crate::station::{Catalog, Station};
use crate::strings::{chars_of, find_char, string_of, parse_u32, parse_u32_spec, first_index_of};
use crate::order::{first_of_each, key_view, lex_lt, is_held, stable_order, is_permutation, pair_lt};
use crate::strings::{owned, push_decimal, decimal, chars_eq};

verus! {

/// What happened while fetching, for whoever is watching.
pub struct Report<F: Fn(&str)> {
    pub say: F,
}

impl<F: Fn(&str)> Report<F> {
    /// Passes a note on to whoever is watching.
    pub fn note(&self, message: &str)
        requires
            forall|m: &str| call_requires(self.say, (m,)),
        ensures
            call_ensures(self.say, (message,), ()),
    {
        (self.say)(message);
    }
}

/// A reference is missing: some station follows it, and it has no
/// constants in the catalog.
pub open spec fn is_missing_reference(catalog: Catalog, key: Seq<char>) -> bool {
    &&& exists|i: int| 0 <= i < catalog.stations@.len() && #[trigger] catalog.stations@[i].spec_reference() == Some(key)
    &&& !catalog.constant_keys().contains(key)
}

/// Reference stations named by a subordinate but not in the catalog:
/// each once, in sorted order.
pub fn missing_references(catalog: &Catalog) -> (out: Vec<String>)
    ensures
        forall|q: int, r: int| #![trigger out@[q], out@[r]] 0 <= q < r < out@.len() ==> lex_lt(out@[q]@, out@[r]@),
        forall|q: int| 0 <= q < out@.len() ==> is_missing_reference(*catalog, #[trigger] out@[q]@),
        forall|key: Seq<char>| is_missing_reference(*catalog, key) ==> exists|q: int| 0 <= q < out@.len() && #[trigger] out@[q]@ == key,
{
    let mut keys: Vec<(Vec<char>, u64)> = Vec::new();
    let mut i: usize = 0;
    while i < catalog.stations.len()
        invariant
            i <= catalog.stations@.len(),
            forall|j: int| 0 <= j < keys@.len() ==> is_missing_reference(*catalog, #[trigger] keys@[j].0@) && keys@[j].1 == 0,
            forall|j: int| #![trigger catalog.stations@[j]] 0 <= j < i && catalog.stations@[j].spec_reference() is Some
                && !catalog.constant_keys().contains(catalog.stations@[j].spec_reference()->0)
                ==> exists|k: int| 0 <= k < keys@.len() && #[trigger] keys@[k].0@ == catalog.stations@[j].spec_reference()->0,
        decreases catalog.stations@.len() - i,
    {
        let ghost before = keys@;
        if let Some(reference) = catalog.stations[i].reference() {
            if !catalog.has_harmonics(reference) {
                keys.push((chars_of(reference), 0));
                proof {
                    assert(catalog.stations@[i as int].spec_reference() == Some(reference@));
                    assert(keys@[keys@.len() - 1].0@ == reference@);
                    assert(is_missing_reference(*catalog, reference@));
                    assert forall|j: int| 0 <= j < keys@.len() implies is_missing_reference(*catalog, #[trigger] keys@[j].0@) && keys@[j].1 == 0 by {
                        if j < before.len() {
                            assert(keys@[j] == before[j]);
                        }
                    }
                    assert forall|j: int| #![trigger catalog.stations@[j]] 0 <= j < i + 1 && catalog.stations@[j].spec_reference() is Some
                        && !catalog.constant_keys().contains(catalog.stations@[j].spec_reference()->0)
                        implies exists|k: int| 0 <= k < keys@.len() && #[trigger] keys@[k].0@ == catalog.stations@[j].spec_reference()->0 by {
                        if j < i {
                            let k = choose|k: int| 0 <= k < before.len() && #[trigger] before[k].0@ == catalog.stations@[j].spec_reference()->0;
                            assert(keys@[k] == before[k]);
                        } else {
                            assert(keys@[keys@.len() - 1].0@ == catalog.stations@[j].spec_reference()->0);
                        }
                    }
                }
            }
        }
        proof {
            assert forall|j: int| 0 <= j < keys@.len() implies is_missing_reference(*catalog, #[trigger] keys@[j].0@) && keys@[j].1 == 0 by {
                if j < before.len() {
                    assert(keys@[j] == before[j]);
                }
            }
        }
        i += 1;
    }
    let order = first_of_each(&keys);
    let mut out: Vec<String> = Vec::new();
    let mut q: usize = 0;
    while q < order.len()
        invariant
            q <= order@.len(),
            out@.len() == q,
            crate::order::is_first_of_each(keys@, order@),
            forall|r: int| 0 <= r < q ==> #[trigger] out@[r]@ == keys@[order@[r] as int].0@,
        decreases order@.len() - q,
    {
        let k = &keys[order[q]];
        out.push(string_of(&k.0, 0, k.0.len()));
        assert(k.0@.subrange(0, k.0@.len() as int) =~= k.0@);
        q += 1;
    }
    proof {
        assert forall|q: int, r: int| #![trigger out@[q], out@[r]] 0 <= q < r < out@.len() implies lex_lt(out@[q]@, out@[r]@) by {
            assert(crate::order::pair_lt(key_view(keys@[order@[q] as int]), key_view(keys@[order@[r] as int])));
        }
        assert forall|key: Seq<char>| is_missing_reference(*catalog, key) implies exists|q: int| 0 <= q < out@.len() && #[trigger] out@[q]@ == key by {
            let j = choose|j: int| 0 <= j < catalog.stations@.len() && #[trigger] catalog.stations@[j].spec_reference() == Some(key);
            let k = choose|k: int| 0 <= k < keys@.len() && #[trigger] keys@[k].0@ == catalog.stations@[j].spec_reference()->0;
            assert(is_held(keys@, order@, k));
            let q = choose|q: int| 0 <= q < order@.len() && key_view(keys@[order@[q] as int]) == key_view(keys@[k]);
            assert(out@[q]@ == key);
        }
    }
    out
}

/// What a reference key names: `SFB1202-17` is bin 17 of a current
/// station, and a key without a dash is a tide station.
pub open spec fn reference_parts_spec(key: Seq<char>) -> Result<(Seq<char>, Option<u32>), ()> {
    if key.contains('-') {
        let p = choose|p: int| first_index_of(key, '-', p);
        match parse_u32_spec(key.subrange(p + 1, key.len() as int)) {
            Some(bin) => Ok((key.subrange(0, p), Some(bin))),
            None => Err(()),
        }
    } else {
        Ok((key, None))
    }
}

/// Splits a reference key at its first dash into a station and a bin.
pub fn reference_parts(key: &str) -> (r: Result<(String, Option<u32>), String>)
    ensures
        match r {
            Ok((id, bin)) => reference_parts_spec(key@) == Ok::<(Seq<char>, Option<u32>), ()>((id@, bin)),
            Err(e) => reference_parts_spec(key@) is Err && e@ == "not a bin"@,
        },
{
    let v = chars_of(key);
    match find_char(&v, '-') {
        None => {
            assert(v@.subrange(0, v@.len() as int) =~= v@);
            Ok((string_of(&v, 0, v.len()), None))
        },
        Some(p) => {
            proof {
                assert(key@.contains('-'));
                let q = choose|q: int| first_index_of(key@, '-', q);
                if q < p {
                } else if q > p {
                }
                assert(q == p);
            }
            match parse_u32(&v, p + 1) {
                Some(bin) => Ok((string_of(&v, 0, p), Some(bin))),
                None => Err(crate::strings::owned("not a bin")),
            }
        },
    }
}


// ------------------------------------------------------------ ordering

/// `order` lists the places of `texts` by text, smallest first, and
/// equal texts in the order they came: a stable sort by the text.
pub open spec fn sorted_by(texts: Seq<Seq<char>>, order: Seq<usize>) -> bool {
    &&& is_permutation(order, texts.len() as int)
    &&& forall|q: int, r: int| #![trigger order[q], order[r]]
        0 <= q < r < order.len() ==> !lex_lt(texts[order[r] as int], texts[order[q] as int])
    &&& forall|q: int, r: int| #![trigger order[q], order[r]]
        0 <= q < r < order.len() && texts[order[q] as int] == texts[order[r] as int] ==> order[q] < order[r]
}

/// The ids of a list of stations.
pub open spec fn ids(stations: Seq<Station>) -> Seq<Seq<char>> {
    Seq::new(stations.len(), |i: int| stations[i].id@)
}

/// The keys of a list of stations.
pub open spec fn keys(stations: Seq<Station>) -> Seq<Seq<char>> {
    Seq::new(stations.len(), |i: int| stations[i].spec_key())
}

/// A stable sort by texts, through `stable_order`.
fn sort_texts(texts: &Vec<Vec<char>>) -> (order: Vec<usize>)
    ensures
        sorted_by(Seq::new(texts@.len(), |i: int| texts@[i]@), order@),
{
    let ghost t = Seq::new(texts@.len(), |i: int| texts@[i]@);
    let mut pairs: Vec<(Vec<char>, u64)> = Vec::new();
    let mut i: usize = 0;
    while i < texts.len()
        invariant
            i <= texts@.len(),
            pairs@.len() == i,
            t == Seq::new(texts@.len(), |i: int| texts@[i]@),
            forall|j: int| 0 <= j < i ==> key_view(#[trigger] pairs@[j]) == (t[j], 0u64),
        decreases texts@.len() - i,
    {
        pairs.push((texts[i].clone(), 0));
        proof {
            assert(pairs@[i as int].0@ == texts@[i as int]@);
        }
        i += 1;
    }
    let order = stable_order(&pairs);
    proof {
        assert forall|q: int, r: int| #![trigger order@[q], order@[r]]
            0 <= q < r < order@.len() implies !lex_lt(t[order@[r] as int], t[order@[q] as int]) by {
            assert(!pair_lt(key_view(pairs@[order@[r] as int]), key_view(pairs@[order@[q] as int])));
        }
        assert forall|q: int, r: int| #![trigger order@[q], order@[r]]
            0 <= q < r < order@.len() && t[order@[q] as int] == t[order@[r] as int] implies order@[q] < order@[r] by {
            assert(key_view(pairs@[order@[q] as int]) == key_view(pairs@[order@[r] as int]));
        }
    }
    order
}

/// The order a finished catalog keeps its stations in: by key, as a
/// stable sort leaves them.
pub fn key_order(stations: &Vec<Station>) -> (order: Vec<usize>)
    ensures
        sorted_by(keys(stations@), order@),
{
    let mut texts: Vec<Vec<char>> = Vec::new();
    let mut i: usize = 0;
    while i < stations.len()
        invariant
            i <= stations@.len(),
            texts@.len() == i,
            forall|j: int| 0 <= j < i ==> (#[trigger] texts@[j])@ == stations@[j].spec_key(),
        decreases stations@.len() - i,
    {
        let k = stations[i].key();
        texts.push(chars_of(k.as_str()));
        i += 1;
    }
    let order = sort_texts(&texts);
    assert(Seq::new(texts@.len(), |i: int| texts@[i]@) =~= keys(stations@));
    order
}

/// A new text begins at place `p` of `order`: it is the first, or its
/// text differs from the one before it.
pub open spec fn begins_at(texts: Seq<Seq<char>>, order: Seq<usize>, p: int) -> bool {
    p == 0 || texts[order[p] as int] != texts[order[p - 1] as int]
}

/// The places in `order` where a new id begins.
pub open spec fn starts_ok(texts: Seq<Seq<char>>, order: Seq<usize>, starts: Seq<usize>) -> bool {
    &&& forall|g: int| 0 <= g < starts.len() ==> starts[g] < order.len()
    &&& forall|g: int, h: int| #![trigger starts[g], starts[h]] 0 <= g < h < starts.len() ==> starts[g] < starts[h]
    &&& forall|p: int| #![trigger begins_at(texts, order, p)] 0 <= p < order.len() ==> (starts.contains(p as usize) <==> begins_at(texts, order, p))
}

/// A listing's current stations, grouped by station, as the constants
/// come per station and the listing has a row per bin: the rows sorted
/// by id, keeping the listing's order within an id, and the places in
/// that order where each station's rows begin.
pub fn by_station(stations: &Vec<Station>) -> (r: (Vec<usize>, Vec<usize>))
    ensures
        sorted_by(ids(stations@), r.0@),
        starts_ok(ids(stations@), r.0@, r.1@),
{
    let mut texts: Vec<Vec<char>> = Vec::new();
    let mut i: usize = 0;
    while i < stations.len()
        invariant
            i <= stations@.len(),
            texts@.len() == i,
            forall|j: int| 0 <= j < i ==> (#[trigger] texts@[j])@ == stations@[j].id@,
        decreases stations@.len() - i,
    {
        texts.push(chars_of(stations[i].id.as_str()));
        i += 1;
    }
    let order = sort_texts(&texts);
    let ghost t = ids(stations@);
    assert(Seq::new(texts@.len(), |i: int| texts@[i]@) =~= t);
    let mut starts: Vec<usize> = Vec::new();
    let mut p: usize = 0;
    while p < order.len()
        invariant
            p <= order@.len(),
            order@.len() == texts@.len(),
            t == ids(stations@),
            t.len() == texts@.len(),
            forall|j: int| 0 <= j < texts@.len() ==> (#[trigger] texts@[j])@ == t[j],
            sorted_by(t, order@),
            forall|g: int| 0 <= g < starts@.len() ==> starts@[g] < p,
            forall|g: int, h: int| #![trigger starts@[g], starts@[h]] 0 <= g < h < starts@.len() ==> starts@[g] < starts@[h],
            forall|x: int| #![trigger begins_at(t, order@, x)] 0 <= x < p ==> (starts@.contains(x as usize) <==> begins_at(t, order@, x)),
        decreases order@.len() - p,
    {
        let begins = p == 0 || !chars_eq(&texts[order[p]], &texts[order[p - 1]]);
        let ghost before = starts@;
        if begins {
            starts.push(p);
        }
        proof {
            assert(begins == begins_at(t, order@, p as int));
            assert forall|x: int| #![trigger begins_at(t, order@, x)] 0 <= x < p + 1 implies (starts@.contains(x as usize) <==> begins_at(t, order@, x)) by {
                if x < p {
                    if before.contains(x as usize) {
                        let g = choose|g: int| 0 <= g < before.len() && before[g] == x as usize;
                        assert(starts@[g] == x as usize);
                    }
                    if starts@.contains(x as usize) {
                        let g = choose|g: int| 0 <= g < starts@.len() && starts@[g] == x as usize;
                        if g < before.len() {
                            assert(before[g] == x as usize);
                        }
                    }
                } else {
                    if begins {
                        assert(starts@[starts@.len() - 1] == p);
                    } else {
                        if starts@.contains(x as usize) {
                            let g = choose|g: int| 0 <= g < starts@.len() && starts@[g] == x as usize;
                            assert(before[g] == x as usize);
                        }
                    }
                }
            }
        }
        p += 1;
    }
    (order, starts)
}

/// What a finished fetch says of the catalog, and the error it ends in
/// when nothing in it can be predicted.
pub fn tally(total: u64, ready: u64) -> (r: (String, Option<String>))
    ensures
        r.0@ == decimal(total as nat) + " stations, "@ + decimal(ready as nat) + " of them predictable"@,
        match r.1 {
            Some(e) => ready == 0 && e@ == "nothing in the region can be predicted"@,
            None => ready > 0,
        },
{
    let mut note = String::new();
    push_decimal(&mut note, total);
    note.append(" stations, ");
    push_decimal(&mut note, ready);
    note.append(" of them predictable");
    proof {
        assert(note@ =~= decimal(total as nat) + " stations, "@ + decimal(ready as nat) + " of them predictable"@);
    }
    if ready == 0 {
        (note, Some(owned("nothing in the region can be predicted")))
    } else {
        (note, None)
    }
}

} // verus!
