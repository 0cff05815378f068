//! Header-block decoding.
//!
//! Raw header lines are read up to the first blank line; each line is split
//! on its first `:`; a line without `:` is dropped; the value keeps its
//! trailing whitespace but loses its leading whitespace; of two lines with
//! one key the later one wins.  Key case is preserved and keys compare
//! case-sensitively, as the rest of the decoder expects.

use vstd::prelude::*;
use crate::strmap::{map_of_pairs, StrMap};
use crate::text::{find_char_from, lemma_token_end_unique, split_first_at, trim_start,
    trim_start_exec};

verus! {

/// The entry one header line contributes, if any.
pub open spec fn header_pair(line: Seq<char>) -> Option<(Seq<char>, Seq<char>)> {
    match split_first_at(line, ':') {
        Some(p) => Some((p.0, trim_start(p.1))),
        None => None,
    }
}

/// The entries of a header block, in order: lines up to the first blank
/// line, each contributing its pair if it has one.
pub open spec fn header_pairs(lines: Seq<Seq<char>>) -> Seq<(Seq<char>, Seq<char>)>
    decreases lines.len(),
{
    if lines.len() == 0 || lines[0].len() == 0 {
        Seq::empty()
    } else {
        (match header_pair(lines[0]) {
            Some(p) => seq![p],
            None => Seq::<(Seq<char>, Seq<char>)>::empty(),
        }) + header_pairs(lines.drop_first())
    }
}

/// The mapping a header block decodes to.
pub open spec fn spec_header_map(lines: Seq<Seq<char>>) -> Map<Seq<char>, Seq<char>> {
    map_of_pairs(header_pairs(lines))
}

/// Only the lines before the first blank line matter.
pub proof fn lemma_header_pairs_take_to_blank(lines: Seq<Seq<char>>, k: int)
    requires
        0 <= k <= lines.len(),
        forall|j: int| 0 <= j < k ==> lines[j].len() > 0,
        k < lines.len() ==> lines[k].len() == 0,
    ensures
        header_pairs(lines) == header_pairs(lines.take(k)),
    decreases lines.len(),
{
    if k == 0 || lines.len() == 0 {
        assert(lines.take(0) =~= Seq::<Seq<char>>::empty());
    } else {
        assert(lines.take(k)[0] == lines[0]);
        lemma_header_pairs_take_to_blank(lines.drop_first(), k - 1);
        assert(lines.take(k).drop_first() =~= lines.drop_first().take(k - 1));
    }
}

/// Lines after a blank line contribute nothing: a block of well-formed
/// lines followed by a blank line and anything at all decodes as the
/// well-formed lines alone.
pub proof fn lemma_header_pairs_ignore_after_blank(pre: Seq<Seq<char>>, post: Seq<Seq<char>>)
    requires
        forall|j: int| 0 <= j < pre.len() ==> pre[j].len() > 0,
    ensures
        header_pairs(pre + seq![Seq::<char>::empty()] + post) == header_pairs(pre),
{
    let all = pre + seq![Seq::<char>::empty()] + post;
    assert(forall|j: int| 0 <= j < pre.len() ==> all[j] == pre[j]);
    assert(all[pre.len() as int].len() == 0);
    lemma_header_pairs_take_to_blank(all, pre.len() as int);
    assert(all.take(pre.len() as int) =~= pre);
}

/// With no blank line in `a`, a block decodes piece by piece: the entries
/// of `a + b` are those of `a` then those of `b`.
pub proof fn lemma_header_pairs_concat(a: Seq<Seq<char>>, b: Seq<Seq<char>>)
    requires
        forall|i: int| 0 <= i < a.len() ==> a[i].len() > 0,
    ensures
        header_pairs(a + b) == header_pairs(a) + header_pairs(b),
    decreases a.len(),
{
    if a.len() == 0 {
        assert(a + b =~= b);
        assert(header_pairs(a) + header_pairs(b) =~= header_pairs(b));
    } else {
        assert((a + b)[0] == a[0]);
        assert((a + b).drop_first() =~= a.drop_first() + b);
        lemma_header_pairs_concat(a.drop_first(), b);
        let here = match header_pair(a[0]) {
            Some(p) => seq![p],
            None => Seq::<(Seq<char>, Seq<char>)>::empty(),
        };
        assert(header_pairs(a + b) == here + (header_pairs(a.drop_first()) + header_pairs(b)));
        assert(here + (header_pairs(a.drop_first()) + header_pairs(b)) =~= (here + header_pairs(
            a.drop_first())) + header_pairs(b));
    }
}

/// Appending one well-formed header line `k:v` re-points `k` in the
/// decoded mapping, whatever lines came before: of duplicate keys the
/// last occurrence wins.
pub proof fn lemma_header_last_wins(lines: Seq<Seq<char>>, k: Seq<char>, v: Seq<char>)
    requires
        forall|i: int| 0 <= i < lines.len() ==> lines[i].len() > 0,
        forall|i: int| 0 <= i < k.len() ==> k[i] != ':',
    ensures
        spec_header_map(lines.push(k + seq![':'] + v)) == spec_header_map(lines).insert(
            k, trim_start(v)),
{
    let l = k + seq![':'] + v;
    assert(lines.push(l) =~= lines + seq![l]);
    lemma_header_pairs_concat(lines, seq![l]);
    assert(forall|j: int| 0 <= j < k.len() ==> l[j] == k[j]);
    assert(l[k.len() as int] == ':');
    assert(forall|j: int| 0 <= j < v.len() ==> l[j + k.len() + 1] == v[j]);
    lemma_token_end_unique(l, ':', k.len() as int);
    assert(l.take(k.len() as int) =~= k);
    assert(l.skip(k.len() as int + 1) =~= v);
    assert(split_first_at(l, ':') == Some((k, v)));
    assert(header_pair(l) == Some((k, trim_start(v))));
    assert(seq![l].drop_first() =~= Seq::<Seq<char>>::empty());
    assert(seq![l][0] == l);
    assert(header_pairs(seq![l]) =~= seq![(k, trim_start(v))] + header_pairs(
        Seq::<Seq<char>>::empty()));
    assert(header_pairs(seq![l]) =~= seq![(k, trim_start(v))]);
    let ps = header_pairs(lines);
    assert(ps + seq![(k, trim_start(v))] =~= ps.push((k, trim_start(v))));
    assert(ps.push((k, trim_start(v))).drop_last() =~= ps);
}

/// Decode a header block.  Lines at and after the first blank line are
/// ignored.
pub fn parse_headers(lines: &Vec<&str>) -> (r: StrMap)
    ensures
        r@ == spec_header_map(lines.deep_view()),
{
    let ghost lv = lines.deep_view();
    let mut m = StrMap::new();
    let ghost mut done: Seq<(Seq<char>, Seq<char>)> = Seq::empty();
    let mut i: usize = 0;
    proof {
        assert(lv.skip(0) =~= lv);
    }
    loop
        invariant_except_break
            i <= lines.len(),
            lv == lines.deep_view(),
            lv.len() == lines.len(),
            header_pairs(lv) == done + header_pairs(lv.skip(i as int)),
            m@ == map_of_pairs(done),
        ensures
            m@ == map_of_pairs(header_pairs(lv)),
        decreases lines.len() - i,
    {
        if i == lines.len() {
            proof {
                assert(done + header_pairs(lv.skip(i as int)) =~= done);
            }
            break;
        }
        let line = lines[i];
        proof {
            assert(lv.skip(i as int)[0] == line@);
        }
        if line.is_empty() {
            proof {
                assert(done + header_pairs(lv.skip(i as int)) =~= done);
            }
            break;
        }
        let ghost rest = header_pairs(lv.skip(i + 1));
        proof {
            assert(lv.skip(i as int).drop_first() =~= lv.skip(i + 1));
        }
        let line_len = line.unicode_len();
        let e = find_char_from(line, 0, ':');
        proof {
            assert(line@.skip(0) =~= line@);
        }
        if e < line_len {
            let k = line.substring_char(0, e).to_owned();
            let vraw = line.substring_char(e + 1, line_len);
            let v = trim_start_exec(vraw).to_owned();
            proof {
                assert(k@ =~= line@.take(e as int));
                assert(vraw@ =~= line@.skip(e as int + 1));
                assert(split_first_at(line@, ':') == Some((k@, vraw@)));
                assert(header_pair(line@) == Some((k@, v@)));
            }
            m.insert(k, v);
            proof {
                let pr = (k@, v@);
                let prev = done;
                done = done.push(pr);
                assert(done.drop_last() =~= prev);
                assert(map_of_pairs(done) == map_of_pairs(prev).insert(pr.0, pr.1));
                assert(prev + (seq![pr] + rest) =~= done + rest);
            }
        }
        proof {
            assert(header_pairs(lv) == done + rest);
        }
        i += 1;
    }
    m
}

} // verus!
