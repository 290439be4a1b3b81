//! Putting keys in order: text compared as `String`s are, character by
//! character, with a number after it to break ties.
//!
//! Station keys are sorted in a few places (the catalog, the listing a
//! fetch starts from, the references it goes back for), always by the
//! same rule; this is that rule and the two sorts built on it.

use vstd::prelude::*;

verus! {

/// `a` sorts before `b`: the first character where they differ is
/// smaller in `a`, or `a` is a proper prefix of `b`. This is the order
/// of Rust's `String`, since UTF-8 keeps the order of code points.
pub open spec fn lex_lt(a: Seq<char>, b: Seq<char>) -> bool
    decreases a.len(),
{
    if b.len() == 0 {
        false
    } else if a.len() == 0 {
        true
    } else if a[0] != b[0] {
        (a[0] as int) < (b[0] as int)
    } else {
        lex_lt(a.drop_first(), b.drop_first())
    }
}

/// Text, then a number.
pub open spec fn pair_lt(a: (Seq<char>, u64), b: (Seq<char>, u64)) -> bool {
    lex_lt(a.0, b.0) || (a.0 == b.0 && a.1 < b.1)
}

/// The sort key held at one place of an executable list.
pub open spec fn key_view(k: (Vec<char>, u64)) -> (Seq<char>, u64) {
    (k.0@, k.1)
}

pub proof fn lemma_lex_irreflexive(a: Seq<char>)
    ensures
        !lex_lt(a, a),
    decreases a.len(),
{
    if a.len() > 0 {
        lemma_lex_irreflexive(a.drop_first());
    }
}

/// Two different texts are in order one way or the other.
pub proof fn lemma_lex_total(a: Seq<char>, b: Seq<char>)
    ensures
        a == b || lex_lt(a, b) || lex_lt(b, a),
    decreases a.len(),
{
    if a.len() > 0 && b.len() > 0 && a[0] == b[0] {
        lemma_lex_total(a.drop_first(), b.drop_first());
        if a.drop_first() == b.drop_first() {
            assert(a =~= seq![a[0]] + a.drop_first());
            assert(b =~= seq![b[0]] + b.drop_first());
        }
    }
    if a.len() == 0 && b.len() == 0 {
        assert(a =~= b);
    }
    if a.len() > 0 && b.len() > 0 && a[0] != b[0] {
        assert((a[0] as int) != (b[0] as int));
    }
}

pub proof fn lemma_lex_asymmetric(a: Seq<char>, b: Seq<char>)
    ensures
        !(lex_lt(a, b) && lex_lt(b, a)),
    decreases a.len(),
{
    if a.len() > 0 && b.len() > 0 && a[0] == b[0] {
        lemma_lex_asymmetric(a.drop_first(), b.drop_first());
    }
}

pub proof fn lemma_lex_transitive(a: Seq<char>, b: Seq<char>, c: Seq<char>)
    requires
        lex_lt(a, b),
        lex_lt(b, c),
    ensures
        lex_lt(a, c),
    decreases a.len(),
{
    if a.len() > 0 && b.len() > 0 && c.len() > 0 && a[0] == b[0] && b[0] == c[0] {
        lemma_lex_transitive(a.drop_first(), b.drop_first(), c.drop_first());
    }
}

pub proof fn lemma_pair_total(a: (Seq<char>, u64), b: (Seq<char>, u64))
    ensures
        a == b || pair_lt(a, b) || pair_lt(b, a),
{
    lemma_lex_total(a.0, b.0);
}

pub proof fn lemma_pair_irreflexive(a: (Seq<char>, u64))
    ensures
        !pair_lt(a, a),
{
    lemma_lex_irreflexive(a.0);
}

pub proof fn lemma_pair_asymmetric(a: (Seq<char>, u64), b: (Seq<char>, u64))
    ensures
        !(pair_lt(a, b) && pair_lt(b, a)),
{
    lemma_lex_asymmetric(a.0, b.0);
    lemma_lex_irreflexive(a.0);
}

pub proof fn lemma_pair_transitive(a: (Seq<char>, u64), b: (Seq<char>, u64), c: (Seq<char>, u64))
    requires
        pair_lt(a, b),
        pair_lt(b, c),
    ensures
        pair_lt(a, c),
{
    if lex_lt(a.0, b.0) && lex_lt(b.0, c.0) {
        lemma_lex_transitive(a.0, b.0, c.0);
    }
}

/// Sharing a first `i` characters leaves the order to what follows.
proof fn lemma_lex_skip(a: Seq<char>, b: Seq<char>, i: int)
    requires
        0 <= i <= a.len(),
        i <= b.len(),
        a.subrange(0, i) == b.subrange(0, i),
    ensures
        lex_lt(a, b) == lex_lt(a.skip(i), b.skip(i)),
    decreases i,
{
    if i > 0 {
        assert(a[0] == a.subrange(0, i)[0]);
        assert(b[0] == b.subrange(0, i)[0]);
        assert(a.drop_first().subrange(0, i - 1) =~= a.subrange(0, i).drop_first());
        assert(b.drop_first().subrange(0, i - 1) =~= b.subrange(0, i).drop_first());
        lemma_lex_skip(a.drop_first(), b.drop_first(), i - 1);
        assert(a.drop_first().skip(i - 1) =~= a.skip(i));
        assert(b.drop_first().skip(i - 1) =~= b.skip(i));
    } else {
        assert(a.skip(0) =~= a);
        assert(b.skip(0) =~= b);
    }
}

/// Whether `a` sorts strictly before `b`.
pub fn lex_less(a: &Vec<char>, b: &Vec<char>) -> (r: bool)
    ensures
        r == lex_lt(a@, b@),
{
    let mut i: usize = 0;
    while i < a.len() && i < b.len()
        invariant
            i <= a@.len(),
            i <= b@.len(),
            a@.subrange(0, i as int) == b@.subrange(0, i as int),
        decreases a@.len() - i,
    {
        if a[i] != b[i] {
            proof {
                lemma_lex_skip(a@, b@, i as int);
                assert(a@.skip(i as int)[0] == a@[i as int]);
                assert(b@.skip(i as int)[0] == b@[i as int]);
            }
            return a[i] < b[i];
        }
        assert(a@.subrange(0, i + 1) =~= a@.subrange(0, i as int).push(a@[i as int]));
        assert(b@.subrange(0, i + 1) =~= b@.subrange(0, i as int).push(b@[i as int]));
        i += 1;
    }
    proof {
        lemma_lex_skip(a@, b@, i as int);
    }
    i < b.len()
}

/// Whether the pair `a` sorts strictly before `b`.
pub fn pair_less(a: &(Vec<char>, u64), b: &(Vec<char>, u64)) -> (r: bool)
    ensures
        r == pair_lt(key_view(*a), key_view(*b)),
{
    if lex_less(&a.0, &b.0) {
        true
    } else if lex_less(&b.0, &a.0) {
        false
    } else {
        proof {
            lemma_lex_total(a.0@, b.0@);
        }
        a.1 < b.1
    }
}

/// Each index below `n` once.
pub open spec fn is_permutation(order: Seq<usize>, n: int) -> bool {
    &&& order.len() == n
    &&& forall|q: int| 0 <= q < n ==> order[q] < n
    &&& forall|q: int, r: int| 0 <= q < r < n ==> order[q] != order[r]
}

/// `order` lists the keys smallest first, and keys that are equal in
/// the order they were given.
pub open spec fn is_stable_sort(keys: Seq<(Vec<char>, u64)>, order: Seq<usize>) -> bool {
    &&& is_permutation(order, keys.len() as int)
    &&& forall|q: int, r: int| #![trigger order[q], order[r]]
        0 <= q < r < order.len() ==> !pair_lt(key_view(keys[order[r] as int]), key_view(keys[order[q] as int]))
    &&& forall|q: int, r: int| #![trigger order[q], order[r]]
        0 <= q < r < order.len() && key_view(keys[order[q] as int]) == key_view(keys[order[r] as int])
            ==> order[q] < order[r]
}

/// The places of `keys` in sorted order, keeping equal keys in the order
/// they came: what a stable sort by the key would leave.
pub fn stable_order(keys: &Vec<(Vec<char>, u64)>) -> (order: Vec<usize>)
    ensures
        is_stable_sort(keys@, order@),
{
    let mut order: Vec<usize> = Vec::new();
    let mut i: usize = 0;
    while i < keys.len()
        invariant
            i <= keys@.len(),
            order@.len() == i,
            forall|q: int| 0 <= q < i ==> order@[q] < i,
            forall|q: int, r: int| 0 <= q < r < i ==> order@[q] != order@[r],
            forall|q: int, r: int| #![trigger order@[q], order@[r]]
                0 <= q < r < i ==> !pair_lt(key_view(keys@[order@[r] as int]), key_view(keys@[order@[q] as int])),
            forall|q: int, r: int| #![trigger order@[q], order@[r]]
                0 <= q < r < i && key_view(keys@[order@[q] as int]) == key_view(keys@[order@[r] as int])
                    ==> order@[q] < order@[r],
        decreases keys@.len() - i,
    {
        let mut p: usize = 0;
        while p < order.len() && !pair_less(&keys[i], &keys[order[p]])
            invariant
                p <= order@.len(),
                order@.len() == i,
                i < keys@.len(),
                forall|q: int| 0 <= q < order@.len() ==> order@[q] < i,
                forall|q: int| 0 <= q < p ==> !pair_lt(key_view(keys@[i as int]), #[trigger] key_view(keys@[order@[q] as int])),
            decreases order@.len() - p,
        {
            p += 1;
        }
        let ghost before = order@;
        order.insert(p, i);
        proof {
            let e = key_view(keys@[i as int]);
            assert forall|q: int, r: int| #![trigger order@[q], order@[r]]
                0 <= q < r < i + 1 implies !pair_lt(key_view(keys@[order@[r] as int]), key_view(keys@[order@[q] as int])) by {
                if q < p && r == p {
                    let a = key_view(keys@[before[q] as int]);
                    lemma_pair_total(a, e);
                    lemma_pair_asymmetric(a, e);
                } else if q == p && r > p {
                    let b = key_view(keys@[before[r - 1] as int]);
                    lemma_pair_asymmetric(e, key_view(keys@[before[p as int] as int]));
                    if pair_lt(b, e) {
                        assert(pair_lt(e, key_view(keys@[before[p as int] as int])));
                        if r - 1 > p {
                            let c = key_view(keys@[before[p as int] as int]);
                            assert(!pair_lt(b, c));
                            lemma_pair_total(b, c);
                            if b != c {
                                lemma_pair_transitive(e, c, b);
                                lemma_pair_asymmetric(b, e);
                            } else {
                                lemma_pair_asymmetric(b, e);
                            }
                        } else {
                            lemma_pair_asymmetric(b, e);
                        }
                    }
                } else if q < p && r > p {
                    assert(order@[q] == before[q]);
                    assert(order@[r] == before[r - 1]);
                } else if q > p {
                    assert(order@[q] == before[q - 1]);
                    assert(order@[r] == before[r - 1]);
                }
            }
            assert forall|q: int, r: int| #![trigger order@[q], order@[r]]
                0 <= q < r < i + 1 && key_view(keys@[order@[q] as int]) == key_view(keys@[order@[r] as int])
                    implies order@[q] < order@[r] by {
                if q == p && r > p {
                    let c = key_view(keys@[before[p as int] as int]);
                    let b = key_view(keys@[before[r - 1] as int]);
                    assert(pair_lt(e, c));
                    if r - 1 > p {
                        assert(!pair_lt(b, c));
                        lemma_pair_total(b, c);
                        if b != c {
                            lemma_pair_transitive(e, c, b);
                        }
                        lemma_pair_irreflexive(e);
                    } else {
                        lemma_pair_irreflexive(e);
                    }
                } else if q < p && r > p {
                    assert(order@[q] == before[q]);
                    assert(order@[r] == before[r - 1]);
                } else if q > p {
                    assert(order@[q] == before[q - 1]);
                    assert(order@[r] == before[r - 1]);
                }
            }
            assert forall|q: int, r: int| 0 <= q < r < i + 1 implies order@[q] != order@[r] by {
                if q < p && r > p {
                    assert(order@[q] == before[q]);
                    assert(order@[r] == before[r - 1]);
                } else if q > p {
                    assert(order@[q] == before[q - 1]);
                    assert(order@[r] == before[r - 1]);
                }
            }
            assert forall|q: int| 0 <= q < i + 1 implies order@[q] < i + 1 by {
                if q < p {
                    assert(order@[q] == before[q]);
                } else if q > p {
                    assert(order@[q] == before[q - 1]);
                }
            }
        }
        i += 1;
    }
    order
}

/// The keys at the places in `order` rise strictly.
pub open spec fn strictly_rising(keys: Seq<(Vec<char>, u64)>, order: Seq<usize>) -> bool {
    forall|q: int, r: int| #![trigger order[q], order[r]]
        0 <= q < r < order.len() ==> pair_lt(key_view(keys[order[q] as int]), key_view(keys[order[r] as int]))
}

/// The key at place `k` is held at one of the places in `order`.
pub open spec fn is_held(keys: Seq<(Vec<char>, u64)>, order: Seq<usize>, k: int) -> bool {
    exists|q: int| 0 <= q < order.len() && key_view(keys[order[q] as int]) == key_view(keys[k])
}

/// No place in `order` has its key earlier in `keys`.
pub open spec fn only_firsts(keys: Seq<(Vec<char>, u64)>, order: Seq<usize>) -> bool {
    forall|q: int, k: int| #![trigger order[q], keys[k]]
        0 <= q < order.len() && 0 <= k < order[q] ==> key_view(keys[k]) != key_view(keys[order[q] as int])
}

/// What `first_of_each` keeps true of the first `i` keys.
pub open spec fn first_of_each_so_far(keys: Seq<(Vec<char>, u64)>, order: Seq<usize>, i: int) -> bool {
    &&& 0 <= i <= keys.len()
    &&& forall|q: int| 0 <= q < order.len() ==> order[q] < i
    &&& strictly_rising(keys, order)
    &&& forall|k: int| 0 <= k < i ==> #[trigger] is_held(keys, order, k)
    &&& only_firsts(keys, order)
}

/// A key already held is skipped.
proof fn lemma_first_of_each_repeat(keys: Seq<(Vec<char>, u64)>, order: Seq<usize>, i: int, p: int)
    requires
        first_of_each_so_far(keys, order, i),
        i < keys.len(),
        0 <= p < order.len(),
        key_view(keys[order[p] as int]) == key_view(keys[i]),
    ensures
        first_of_each_so_far(keys, order, i + 1),
{
    assert forall|k: int| 0 <= k < i + 1 implies #[trigger] is_held(keys, order, k) by {
        if k == i {
            assert(key_view(keys[order[p] as int]) == key_view(keys[k]));
        }
    }
}

#[verifier::spinoff_prover]
proof fn lemma_new_sorted(keys: Seq<(Vec<char>, u64)>, before: Seq<usize>, i: int, p: int)
    requires
        first_of_each_so_far(keys, before, i),
        0 <= i < keys.len(),
        i <= usize::MAX,
        0 <= p <= before.len(),
        forall|q: int| 0 <= q < p ==> pair_lt(#[trigger] key_view(keys[before[q] as int]), key_view(keys[i])),
        p < before.len() ==> pair_lt(key_view(keys[i]), key_view(keys[before[p] as int])),
    ensures
        strictly_rising(keys, before.insert(p, i as usize)),
{
    let order = before.insert(p, i as usize);
    let e = key_view(keys[i]);
    assert forall|q: int, r: int| #![trigger order[q], order[r]]
        0 <= q < r < order.len() implies pair_lt(key_view(keys[order[q] as int]), key_view(keys[order[r] as int])) by {
        if q < p && r == p {
            assert(order[q] == before[q]);
        } else if q == p && r > p {
            let c = key_view(keys[before[p] as int]);
            assert(order[r] == before[r - 1]);
            if r - 1 > p {
                let b = key_view(keys[before[r - 1] as int]);
                assert(pair_lt(c, b));
                lemma_pair_transitive(e, c, b);
            }
        } else if q < p && r > p {
            assert(order[q] == before[q]);
            assert(order[r] == before[r - 1]);
        } else if q > p {
            assert(order[q] == before[q - 1]);
            assert(order[r] == before[r - 1]);
        }
    }
}

#[verifier::spinoff_prover]
proof fn lemma_new_covers(keys: Seq<(Vec<char>, u64)>, before: Seq<usize>, i: int, p: int)
    requires
        first_of_each_so_far(keys, before, i),
        0 <= i < keys.len(),
        i <= usize::MAX,
        0 <= p <= before.len(),
        forall|q: int| 0 <= q < p ==> pair_lt(#[trigger] key_view(keys[before[q] as int]), key_view(keys[i])),
        p < before.len() ==> pair_lt(key_view(keys[i]), key_view(keys[before[p] as int])),
    ensures
        forall|k: int| 0 <= k < i + 1 ==> #[trigger] is_held(keys, before.insert(p, i as usize), k),
{
    let order = before.insert(p, i as usize);
    assert forall|k: int| 0 <= k < i + 1 implies #[trigger] is_held(keys, order, k) by {
        if k == i {
            assert(order[p] == i);
            assert(key_view(keys[order[p] as int]) == key_view(keys[k]));
        } else {
            assert(is_held(keys, before, k));
            let q0 = choose|q: int| 0 <= q < before.len() && key_view(keys[before[q] as int]) == key_view(keys[k]);
            if q0 < p {
                assert(order[q0] == before[q0]);
            } else {
                assert(order[q0 + 1] == before[q0]);
            }
        }
    }
}

#[verifier::spinoff_prover]
proof fn lemma_new_first(keys: Seq<(Vec<char>, u64)>, before: Seq<usize>, i: int, p: int)
    requires
        first_of_each_so_far(keys, before, i),
        0 <= i < keys.len(),
        i <= usize::MAX,
        0 <= p <= before.len(),
        forall|q: int| 0 <= q < p ==> pair_lt(#[trigger] key_view(keys[before[q] as int]), key_view(keys[i])),
        p < before.len() ==> pair_lt(key_view(keys[i]), key_view(keys[before[p] as int])),
    ensures
        only_firsts(keys, before.insert(p, i as usize)),
{
    let order = before.insert(p, i as usize);
    let e = key_view(keys[i]);
    assert forall|q: int, k: int| #![trigger order[q], keys[k]] 0 <= q < order.len() && 0 <= k < order[q] implies key_view(keys[k]) != key_view(keys[order[q] as int]) by {
        if q == p {
            assert(order[q] == i);
            if key_view(keys[k]) == e {
                assert(is_held(keys, before, k));
                let q0 = choose|q0: int| 0 <= q0 < before.len() && key_view(keys[before[q0] as int]) == key_view(keys[k]);
                if q0 < p {
                    lemma_pair_irreflexive(e);
                } else {
                    let c = key_view(keys[before[p] as int]);
                    if q0 > p {
                        assert(pair_lt(c, key_view(keys[before[q0] as int])));
                        lemma_pair_asymmetric(c, e);
                    }
                    lemma_pair_irreflexive(e);
                }
            }
        } else if q < p {
            assert(order[q] == before[q]);
        } else {
            assert(order[q] == before[q - 1]);
        }
    }
}

/// A new key goes in at its place in the order.
proof fn lemma_first_of_each_new(keys: Seq<(Vec<char>, u64)>, before: Seq<usize>, i: int, p: int)
    requires
        first_of_each_so_far(keys, before, i),
        0 <= i < keys.len(),
        i <= usize::MAX,
        0 <= p <= before.len(),
        forall|q: int| 0 <= q < p ==> pair_lt(#[trigger] key_view(keys[before[q] as int]), key_view(keys[i])),
        p < before.len() ==> pair_lt(key_view(keys[i]), key_view(keys[before[p] as int])),
    ensures
        first_of_each_so_far(keys, before.insert(p, i as usize), i + 1),
{
    let order = before.insert(p, i as usize);
    lemma_new_sorted(keys, before, i, p);
    lemma_new_covers(keys, before, i, p);
    lemma_new_first(keys, before, i, p);
    assert forall|q: int| 0 <= q < order.len() implies order[q] < i + 1 by {
        if q < p {
            assert(order[q] == before[q]);
        } else if q > p {
            assert(order[q] == before[q - 1]);
        }
    }
}

/// `order` holds, smallest first, the first place each different key
/// occurs in `keys`.
pub open spec fn is_first_of_each(keys: Seq<(Vec<char>, u64)>, order: Seq<usize>) -> bool {
    first_of_each_so_far(keys, order, keys.len() as int)
}

/// Each different key once, at the first place it occurs, smallest key
/// first: what a stable sort followed by dropping repeats leaves.
pub fn first_of_each(keys: &Vec<(Vec<char>, u64)>) -> (order: Vec<usize>)
    ensures
        is_first_of_each(keys@, order@),
{
    let mut order: Vec<usize> = Vec::new();
    let mut i: usize = 0;
    while i < keys.len()
        invariant
            first_of_each_so_far(keys@, order@, i as int),
        decreases keys@.len() - i,
    {
        let mut p: usize = 0;
        while p < order.len() && pair_less(&keys[order[p]], &keys[i])
            invariant
                p <= order@.len(),
                i < keys@.len(),
                first_of_each_so_far(keys@, order@, i as int),
                forall|q: int| 0 <= q < p ==> pair_lt(#[trigger] key_view(keys@[order@[q] as int]), key_view(keys@[i as int])),
            decreases order@.len() - p,
        {
            p += 1;
        }
        let same = p < order.len() && !pair_less(&keys[i], &keys[order[p]]);
        if same {
            proof {
                let c = key_view(keys@[order@[p as int] as int]);
                lemma_pair_total(c, key_view(keys@[i as int]));
                lemma_first_of_each_repeat(keys@, order@, i as int, p as int);
            }
        } else {
            proof {
                if p < order@.len() {
                    lemma_pair_total(key_view(keys@[order@[p as int] as int]), key_view(keys@[i as int]));
                }
                lemma_first_of_each_new(keys@, order@, i as int, p as int);
            }
            order.insert(p, i);
        }
        i += 1;
    }
    order
}

} // verus!
