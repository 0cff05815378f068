//! Query-string decoding.
//!
//! The raw text after `?` in a request target is split on `&` into
//! candidate pairs; each candidate is split on its first `=`; a candidate
//! without `=` contributes nothing, and of two pairs with one key the later
//! one wins.  Decoding never fails: the worst input yields an empty mapping.

use vstd::prelude::*;
use crate::strmap::{map_of_pairs, StrMap};
use crate::text::{find_char_from, lemma_token_end, lemma_token_end_unique, split_first_at, token_end};

verus! {

/// The key-value pairs of a raw query string, in order of appearance.
/// Candidates without `=` are already dropped here.
pub open spec fn query_pairs(raw: Seq<char>) -> Seq<(Seq<char>, Seq<char>)>
    decreases raw.len(),
{
    let e = token_end(raw, '&');
    let here = match split_first_at(raw.take(e as int), '=') {
        Some(p) => seq![p],
        None => Seq::<(Seq<char>, Seq<char>)>::empty(),
    };
    if e >= raw.len() {
        here
    } else {
        here + query_pairs(raw.skip(e as int + 1))
    }
}

/// The mapping a raw query string decodes to.
pub open spec fn spec_query_map(raw: Seq<char>) -> Map<Seq<char>, Seq<char>> {
    map_of_pairs(query_pairs(raw))
}

/// One step of [`query_pairs`]: the candidate ends at the first `&`.
proof fn lemma_query_pairs_step(s: Seq<char>, p: int, q: int)
    requires
        0 <= p <= q <= s.len(),
        forall|j: int| p <= j < q ==> s[j] != '&',
        q < s.len() ==> s[q] == '&',
    ensures
        query_pairs(s.skip(p)) == (match split_first_at(s.subrange(p, q), '=') {
            Some(pr) => seq![pr],
            None => Seq::<(Seq<char>, Seq<char>)>::empty(),
        }) + (if q < s.len() {
            query_pairs(s.skip(q + 1))
        } else {
            Seq::<(Seq<char>, Seq<char>)>::empty()
        }),
{
    let t = s.skip(p);
    assert forall|j: int| 0 <= j < q - p implies t[j] != '&' by {
        assert(t[j] == s[j + p]);
    }
    lemma_token_end_unique(t, '&', q - p);
    assert(t.take(q - p) =~= s.subrange(p, q));
    if q < s.len() {
        assert(t.skip(q - p + 1) =~= s.skip(q + 1));
    } else {
        assert(query_pairs(t) == query_pairs(t) + Seq::<(Seq<char>, Seq<char>)>::empty());
    }
}

/// A raw query string without `=` anywhere — every candidate malformed —
/// decodes to the empty mapping.
pub proof fn lemma_query_without_eq_empty(raw: Seq<char>)
    requires
        forall|i: int| 0 <= i < raw.len() ==> raw[i] != '=',
    ensures
        spec_query_map(raw) == Map::<Seq<char>, Seq<char>>::empty(),
    decreases raw.len(),
{
    let e = token_end(raw, '&');
    lemma_token_end(raw, '&');
    let tok = raw.take(e as int);
    lemma_token_end(tok, '=');
    if token_end(tok, '=') < tok.len() {
        assert(raw[token_end(tok, '=') as int] == '=');
    }
    assert(split_first_at(tok, '=') is None);
    if e < raw.len() {
        let tail = raw.skip(e as int + 1);
        assert(forall|i: int| 0 <= i < tail.len() ==> tail[i] == raw[i + e + 1]);
        lemma_query_without_eq_empty(tail);
        assert(query_pairs(raw) =~= query_pairs(tail));
    }
}

/// Splitting at a fresh `&` decodes each side on its own: the pairs of
/// `a & b` are the pairs of `a` then the pairs of `b`.
pub proof fn lemma_query_pairs_concat(a: Seq<char>, b: Seq<char>)
    ensures
        query_pairs(a + seq!['&'] + b) == query_pairs(a) + query_pairs(b),
    decreases a.len(),
{
    let s = a + seq!['&'] + b;
    assert(forall|j: int| 0 <= j < a.len() ==> s[j] == a[j]);
    assert(s[a.len() as int] == '&');
    assert(forall|j: int| 0 <= j < b.len() ==> s[j + a.len() + 1] == b[j]);
    let e0 = token_end(a, '&');
    lemma_token_end(a, '&');
    if e0 < a.len() {
        lemma_token_end_unique(s, '&', e0 as int);
        assert(s.take(e0 as int) =~= a.take(e0 as int));
        assert(s.skip(e0 as int + 1) =~= a.skip(e0 as int + 1) + seq!['&'] + b);
        lemma_query_pairs_concat(a.skip(e0 as int + 1), b);
        let here = match split_first_at(a.take(e0 as int), '=') {
            Some(p) => seq![p],
            None => Seq::<(Seq<char>, Seq<char>)>::empty(),
        };
        assert(query_pairs(s) == here + (query_pairs(a.skip(e0 as int + 1)) + query_pairs(b)));
        assert(here + (query_pairs(a.skip(e0 as int + 1)) + query_pairs(b)) =~= (here
            + query_pairs(a.skip(e0 as int + 1))) + query_pairs(b));
    } else {
        lemma_token_end_unique(s, '&', a.len() as int);
        assert(s.take(a.len() as int) =~= a);
        assert(s.skip(a.len() as int + 1) =~= b);
        assert(a.take(a.len() as int) =~= a);
        let here = match split_first_at(a, '=') {
            Some(p) => seq![p],
            None => Seq::<(Seq<char>, Seq<char>)>::empty(),
        };
        assert(query_pairs(s) == here + query_pairs(b));
        assert(query_pairs(a) == here);
    }
}

/// Appending one well-formed candidate `&k=v` re-points `k` at `v` in the
/// decoded mapping, whatever stood in the raw text before: the later pair
/// wins.
pub proof fn lemma_query_last_wins(raw: Seq<char>, k: Seq<char>, v: Seq<char>)
    requires
        forall|i: int| 0 <= i < k.len() ==> k[i] != '&' && k[i] != '=',
        forall|i: int| 0 <= i < v.len() ==> v[i] != '&',
    ensures
        spec_query_map(raw + seq!['&'] + (k + seq!['='] + v)) == spec_query_map(raw).insert(k, v),
{
    let t = k + seq!['='] + v;
    lemma_query_pairs_concat(raw, t);
    assert(forall|j: int| 0 <= j < k.len() ==> t[j] == k[j]);
    assert(t[k.len() as int] == '=');
    assert(forall|j: int| 0 <= j < v.len() ==> t[j + k.len() + 1] == v[j]);
    lemma_token_end_unique(t, '&', t.len() as int);
    lemma_token_end_unique(t, '=', k.len() as int);
    assert(t.take(t.len() as int) =~= t);
    assert(t.take(k.len() as int) =~= k);
    assert(t.skip(k.len() as int + 1) =~= v);
    assert(query_pairs(t) =~= seq![(k, v)]);
    let ps = query_pairs(raw);
    assert(ps + seq![(k, v)] =~= ps.push((k, v)));
    assert(ps.push((k, v)).drop_last() =~= ps);
}

/// Decode a raw query string.
pub fn parse_query(raw: &str) -> (r: StrMap)
    ensures
        r@ == spec_query_map(raw@),
{
    let len = raw.unicode_len();
    let mut m = StrMap::new();
    let ghost mut done: Seq<(Seq<char>, Seq<char>)> = Seq::empty();
    let mut p: usize = 0;
    proof {
        assert(raw@.skip(0) =~= raw@);
    }
    loop
        invariant_except_break
            p <= len,
            len == raw@.len(),
            query_pairs(raw@) == done + query_pairs(raw@.skip(p as int)),
            m@ == map_of_pairs(done),
        ensures
            m@ == map_of_pairs(query_pairs(raw@)),
        decreases len - p,
    {
        let q = find_char_from(raw, p, '&');
        let tok = raw.substring_char(p, q);
        let ghost rest: Seq<(Seq<char>, Seq<char>)> = if q < len {
            query_pairs(raw@.skip(q + 1))
        } else {
            Seq::empty()
        };
        proof {
            assert(tok@ == raw@.subrange(p as int, q as int));
            lemma_query_pairs_step(raw@, p as int, q as int);
        }
        let tok_len = tok.unicode_len();
        let e = find_char_from(tok, 0, '=');
        proof {
            assert(tok@.skip(0) =~= tok@);
        }
        if e < tok_len {
            let k = tok.substring_char(0, e).to_owned();
            let v = tok.substring_char(e + 1, tok_len).to_owned();
            proof {
                assert(k@ =~= tok@.take(e as int));
                assert(v@ =~= tok@.skip(e as int + 1));
                assert(split_first_at(tok@, '=') == Some((k@, v@)));
            }
            m.insert(k, v);
            proof {
                let pr = (k@, v@);
                let prev = done;
                done = done.push(pr);
                assert(done.drop_last() =~= prev);
                assert(map_of_pairs(done) == map_of_pairs(prev).insert(pr.0, pr.1));
                assert(prev + (seq![pr] + rest) =~= done + rest);
            }
        }
        proof {
            assert(query_pairs(raw@) == done + rest);
        }
        if q >= len {
            proof {
                assert(done + rest =~= done);
            }
            break;
        }
        p = q + 1;
    }
    m
}

} // verus!
