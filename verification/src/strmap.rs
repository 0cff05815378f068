//! An ordered string-to-string mapping.
//!
//! Keys and values are owned strings; the abstract value is a
//! `Map<Seq<char>, Seq<char>>`.  Entries keep the position of their first
//! insertion, so serialization can walk them in one canonical order, and a
//! later `insert` of an existing key overwrites its value in place.

use vstd::prelude::*;

verus! {

/// The mapping a pair sequence denotes: pairs applied left to right,
/// a later pair overwriting an earlier one with the same key.
pub open spec fn map_of_pairs(ps: Seq<(Seq<char>, Seq<char>)>) -> Map<Seq<char>, Seq<char>>
    decreases ps.len(),
{
    if ps.len() == 0 {
        Map::empty()
    } else {
        map_of_pairs(ps.drop_last()).insert(ps.last().0, ps.last().1)
    }
}

/// No two pairs share a key.
pub open spec fn distinct_keys(ps: Seq<(Seq<char>, Seq<char>)>) -> bool {
    forall|i: int, j: int| 0 <= i < j < ps.len() ==> ps[i].0 != ps[j].0
}

/// Index of the first pair with key `k`, or `ps.len()` if no pair has it.
pub open spec fn key_index(ps: Seq<(Seq<char>, Seq<char>)>, k: Seq<char>) -> nat
    decreases ps.len(),
{
    if ps.len() == 0 {
        0
    } else if ps[0].0 == k {
        0
    } else {
        1 + key_index(ps.drop_first(), k)
    }
}

/// A key is in [`map_of_pairs`] exactly when some pair carries it.
pub proof fn lemma_map_of_pairs_contains(ps: Seq<(Seq<char>, Seq<char>)>, k: Seq<char>)
    ensures
        map_of_pairs(ps).contains_key(k) <==> exists|i: int| 0 <= i < ps.len() && ps[i].0 == k,
    decreases ps.len(),
{
    if ps.len() > 0 {
        lemma_map_of_pairs_contains(ps.drop_last(), k);
        if map_of_pairs(ps).contains_key(k) {
            if ps.last().0 == k {
                assert(ps[ps.len() - 1].0 == k);
            }
        }
        if exists|i: int| 0 <= i < ps.len() && ps[i].0 == k {
            let i = choose|i: int| 0 <= i < ps.len() && ps[i].0 == k;
            if i < ps.len() - 1 {
                assert(ps.drop_last()[i].0 == k);
            }
        }
    }
}

/// With distinct keys, each pair's key maps to that pair's value.
pub proof fn lemma_map_of_pairs_at(ps: Seq<(Seq<char>, Seq<char>)>, i: int)
    requires
        distinct_keys(ps),
        0 <= i < ps.len(),
    ensures
        map_of_pairs(ps).contains_key(ps[i].0),
        map_of_pairs(ps)[ps[i].0] == ps[i].1,
    decreases ps.len(),
{
    if i < ps.len() - 1 {
        assert(distinct_keys(ps.drop_last())) by {
            assert(forall|x: int, y: int|
                0 <= x < y < ps.drop_last().len() ==> ps.drop_last()[x].0 == ps[x].0
                    && ps.drop_last()[y].0 == ps[y].0);
        }
        lemma_map_of_pairs_at(ps.drop_last(), i);
        assert(ps.last().0 != ps[i].0);
    }
}

/// With distinct keys, the mapping has exactly one entry per pair.
pub proof fn lemma_map_of_pairs_len(ps: Seq<(Seq<char>, Seq<char>)>)
    requires
        distinct_keys(ps),
    ensures
        map_of_pairs(ps).dom().finite(),
        map_of_pairs(ps).len() == ps.len(),
    decreases ps.len(),
{
    if ps.len() > 0 {
        let pre = ps.drop_last();
        assert(distinct_keys(pre)) by {
            assert(forall|x: int, y: int|
                0 <= x < y < pre.len() ==> pre[x].0 == ps[x].0 && pre[y].0 == ps[y].0);
        }
        lemma_map_of_pairs_len(pre);
        lemma_map_of_pairs_contains(pre, ps.last().0);
        assert(forall|i: int| 0 <= i < pre.len() ==> pre[i].0 == ps[i].0);
        assert(!map_of_pairs(pre).contains_key(ps.last().0));
    }
}

/// What [`key_index`] returns: the position of the first pair with the key,
/// if one is present.
pub proof fn lemma_key_index(ps: Seq<(Seq<char>, Seq<char>)>, k: Seq<char>)
    ensures
        key_index(ps, k) <= ps.len(),
        key_index(ps, k) < ps.len() ==> ps[key_index(ps, k) as int].0 == k,
        forall|j: int| 0 <= j < key_index(ps, k) ==> ps[j].0 != k,
    decreases ps.len(),
{
    if ps.len() > 0 && ps[0].0 != k {
        lemma_key_index(ps.drop_first(), k);
        assert forall|j: int| 0 <= j < key_index(ps, k) implies ps[j].0 != k by {
            if j > 0 {
                assert(ps.drop_first()[j - 1].0 != k);
            }
        }
    }
}

/// A position with no pair carrying `k` before it whose pair carries `k`
/// (or that is the end) is exactly [`key_index`].
pub proof fn lemma_key_index_unique(ps: Seq<(Seq<char>, Seq<char>)>, k: Seq<char>, j: int)
    requires
        0 <= j <= ps.len(),
        forall|x: int| 0 <= x < j ==> ps[x].0 != k,
        j < ps.len() ==> ps[j].0 == k,
    ensures
        key_index(ps, k) == j,
{
    lemma_key_index(ps, k);
    let e = key_index(ps, k) as int;
    if e < j {
        assert(ps[e].0 != k);
    } else if j < e {
        assert(ps[j].0 != k);
    }
}

/// An ordered mapping from string keys to string values, at most one value
/// per key, entries listed in first-insertion order.
#[derive(Debug)]
pub struct StrMap {
    pairs: Vec<(String, String)>,
}

impl View for StrMap {
    type V = Map<Seq<char>, Seq<char>>;

    open spec fn view(&self) -> Map<Seq<char>, Seq<char>> {
        map_of_pairs(self.pair_seq())
    }
}

/// The character sequences of a vector of owned pairs.
spec fn pair_views(ps: Seq<(String, String)>) -> Seq<(Seq<char>, Seq<char>)> {
    ps.map_values(|p: (String, String)| (p.0@, p.1@))
}

impl StrMap {
    /// The entries in order, as character sequences.
    pub closed spec fn pair_seq(self) -> Seq<(Seq<char>, Seq<char>)> {
        pair_views(self.pairs@)
    }

    #[verifier::type_invariant]
    spec fn wf(self) -> bool {
        distinct_keys(self.pair_seq())
    }

    /// The empty mapping.
    pub fn new() -> (r: StrMap)
        ensures
            r@ == Map::<Seq<char>, Seq<char>>::empty(),
            r.pair_seq() == Seq::<(Seq<char>, Seq<char>)>::empty(),
    {
        let r = StrMap { pairs: Vec::new() };
        proof {
            assert(r.pair_seq() =~= Seq::<(Seq<char>, Seq<char>)>::empty());
        }
        r
    }

    /// The number of entries.
    pub fn len(&self) -> (n: usize)
        ensures
            n == self@.len(),
            n == self.pair_seq().len(),
    {
        proof {
            use_type_invariant(self);
            lemma_map_of_pairs_len(self.pair_seq());
        }
        self.pairs.len()
    }

    /// Whether the mapping has no entries.
    pub fn is_empty(&self) -> (r: bool)
        ensures
            r == (self@.len() == 0),
    {
        self.len() == 0
    }

    /// Insert an entry.  A key seen before keeps its position and takes the
    /// new value; a new key is appended at the end.
    pub fn insert(&mut self, k: String, v: String)
        ensures
            final(self)@ == old(self)@.insert(k@, v@),
            old(self)@.contains_key(k@) ==> final(self).pair_seq()
                == old(self).pair_seq().update(
                    key_index(old(self).pair_seq(), k@) as int, (k@, v@)),
            !old(self)@.contains_key(k@) ==> final(self).pair_seq()
                == old(self).pair_seq().push((k@, v@)),
    {
        proof {
            use_type_invariant(&*self);
            lemma_map_of_pairs_contains(self.pair_seq(), k@);
        }
        let ghost ops = self.pair_seq();
        let mut pairs: Vec<(String, String)> = Vec::new();
        core::mem::swap(&mut self.pairs, &mut pairs);
        let mut i: usize = 0;
        let n = pairs.len();
        while i < n
            invariant
                i <= n,
                n == pairs.len(),
                pair_views(pairs@) == ops,
                ops == old(self).pair_seq(),
                distinct_keys(ops),
                forall|j: int| 0 <= j < i ==> ops[j].0 != k@,
            decreases n - i,
        {
            if crate::text::str_eq(pairs[i].0.as_str(), k.as_str()) {
                proof {
                    lemma_map_of_pairs_contains(ops, k@);
                    lemma_key_index_unique(ops, k@, i as int);
                    lemma_update_keeps_distinct(ops, i as int, (k@, v@));
                    lemma_map_of_pairs_update(ops, i as int, (k@, v@));
                }
                pairs[i] = (k, v);
                proof {
                    assert(pair_views(pairs@) =~= ops.update(i as int, (k@, v@)));
                }
                self.pairs = pairs;
                return;
            }
            i += 1;
        }
        pairs.push((k, v));
        proof {
            lemma_map_of_pairs_contains(ops, k@);
            assert(pair_views(pairs@) =~= ops.push((k@, v@)));
            assert(pair_views(pairs@).drop_last() =~= ops);
            assert(distinct_keys(pair_views(pairs@)));
        }
        self.pairs = pairs;
    }

    /// Look a key up.
    pub fn get<'a>(&'a self, k: &str) -> (r: Option<&'a str>)
        ensures
            match r {
                Some(v) => self@.contains_key(k@) && v@ == self@[k@],
                None => !self@.contains_key(k@),
            },
    {
        proof {
            use_type_invariant(self);
            lemma_map_of_pairs_contains(self.pair_seq(), k@);
        }
        let mut i: usize = 0;
        let n = self.pairs.len();
        while i < n
            invariant
                i <= n,
                n == self.pairs.len(),
                distinct_keys(self.pair_seq()),
                forall|j: int| 0 <= j < i ==> self.pair_seq()[j].0 != k@,
            decreases n - i,
        {
            if crate::text::str_eq(self.pairs[i].0.as_str(), k) {
                proof {
                    lemma_map_of_pairs_at(self.pair_seq(), i as int);
                }
                return Some(self.pairs[i].1.as_str());
            }
            i += 1;
        }
        proof {
            lemma_map_of_pairs_contains(self.pair_seq(), k@);
        }
        None
    }

    /// Whether a key is present.
    pub fn contains_key(&self, k: &str) -> (r: bool)
        ensures
            r == self@.contains_key(k@),
    {
        self.get(k).is_some()
    }

    /// The key of the entry at `i` in insertion order.
    pub fn key_at(&self, i: usize) -> (r: &str)
        requires
            i < self.pair_seq().len(),
        ensures
            r@ == self.pair_seq()[i as int].0,
    {
        self.pairs[i].0.as_str()
    }

    /// The value of the entry at `i` in insertion order.
    pub fn val_at(&self, i: usize) -> (r: &str)
        requires
            i < self.pair_seq().len(),
        ensures
            r@ == self.pair_seq()[i as int].1,
    {
        self.pairs[i].1.as_str()
    }
}

/// Updating a pair in place with the same key keeps the keys distinct.
proof fn lemma_update_keeps_distinct(
    ps: Seq<(Seq<char>, Seq<char>)>,
    i: int,
    p: (Seq<char>, Seq<char>),
)
    requires
        distinct_keys(ps),
        0 <= i < ps.len(),
        ps[i].0 == p.0,
    ensures
        distinct_keys(ps.update(i, p)),
{
    assert(forall|j: int| 0 <= j < ps.len() && j != i ==> ps.update(i, p)[j] == ps[j]);
}

/// Updating the unique pair that holds a key re-points that key in the map.
proof fn lemma_map_of_pairs_update(
    ps: Seq<(Seq<char>, Seq<char>)>,
    i: int,
    p: (Seq<char>, Seq<char>),
)
    requires
        distinct_keys(ps),
        0 <= i < ps.len(),
        ps[i].0 == p.0,
    ensures
        map_of_pairs(ps.update(i, p)) == map_of_pairs(ps).insert(p.0, p.1),
    decreases ps.len(),
{
    let up = ps.update(i, p);
    if i == ps.len() - 1 {
        assert(up.drop_last() =~= ps.drop_last());
        assert(map_of_pairs(up) =~= map_of_pairs(ps).insert(p.0, p.1));
    } else {
        assert(distinct_keys(ps.drop_last())) by {
            assert(forall|x: int, y: int|
                0 <= x < y < ps.drop_last().len() ==> ps.drop_last()[x] == ps[x]
                    && ps.drop_last()[y] == ps[y]);
        }
        assert(up.drop_last() =~= ps.drop_last().update(i, p));
        lemma_map_of_pairs_update(ps.drop_last(), i, p);
        assert(ps.last().0 != p.0);
        assert(up.last() == ps.last());
        assert(map_of_pairs(up) =~= map_of_pairs(ps).insert(p.0, p.1));
    }
}

} // verus!
