//! Byte-level message framing: locating the blank-line terminator that
//! separates the head of a message from its body.

use vstd::prelude::*;

verus! {

/// Whether the four bytes at `i` are the blank-line terminator CR LF CR LF.
pub open spec fn terminator_at(bytes: Seq<u8>, i: int) -> bool {
    &&& 0 <= i
    &&& i + 4 <= bytes.len()
    &&& bytes[i] == 13
    &&& bytes[i + 1] == 10
    &&& bytes[i + 2] == 13
    &&& bytes[i + 3] == 10
}

/// Position of the first blank-line terminator; `bytes.len()` when there
/// is none.
pub open spec fn terminator_pos(bytes: Seq<u8>) -> nat
    decreases bytes.len(),
{
    if bytes.len() < 4 {
        bytes.len()
    } else if bytes[0] == 13 && bytes[1] == 10 && bytes[2] == 13 && bytes[3] == 10 {
        0
    } else {
        1 + terminator_pos(bytes.drop_first())
    }
}

/// The body a wire message carries: the bytes past the first blank-line
/// terminator, `None` when the message has no terminator.
pub open spec fn extract_body(bytes: Seq<u8>) -> Option<Seq<u8>> {
    let p = terminator_pos(bytes);
    if p + 4 <= bytes.len() {
        Some(bytes.skip(p as int + 4))
    } else {
        None
    }
}

/// What [`terminator_pos`] returns: the position of the first terminator,
/// if any.
pub proof fn lemma_terminator_pos(bytes: Seq<u8>)
    ensures
        terminator_pos(bytes) <= bytes.len(),
        terminator_pos(bytes) + 4 <= bytes.len()
            ==> terminator_at(bytes, terminator_pos(bytes) as int),
        forall|j: int| 0 <= j < terminator_pos(bytes) ==> !terminator_at(bytes, j),
    decreases bytes.len(),
{
    if bytes.len() >= 4 && !(bytes[0] == 13 && bytes[1] == 10 && bytes[2] == 13
        && bytes[3] == 10) {
        lemma_terminator_pos(bytes.drop_first());
        let e = terminator_pos(bytes);
        assert forall|j: int| 0 <= j < e implies !terminator_at(bytes, j) by {
            if j > 0 {
                assert(!terminator_at(bytes.drop_first(), j - 1));
                assert(forall|k: int| 0 <= k < bytes.len() - 1
                    ==> bytes.drop_first()[k] == bytes[k + 1]);
            }
        }
        if e + 4 <= bytes.len() {
            assert(terminator_at(bytes.drop_first(), e - 1));
            assert(forall|k: int| 0 <= k < bytes.len() - 1
                ==> bytes.drop_first()[k] == bytes[k + 1]);
        }
    }
}

/// Without any terminator, [`terminator_pos`] is the whole length.
pub proof fn lemma_terminator_pos_none(bytes: Seq<u8>)
    requires
        forall|j: int| !terminator_at(bytes, j),
    ensures
        terminator_pos(bytes) == bytes.len(),
    decreases bytes.len(),
{
    if bytes.len() >= 4 {
        assert(!terminator_at(bytes, 0));
        assert forall|j: int| !terminator_at(bytes.drop_first(), j) by {
            if 0 <= j && j + 4 <= bytes.len() - 1 {
                assert(forall|k: int| 0 <= k < bytes.len() - 1
                    ==> bytes.drop_first()[k] == bytes[k + 1]);
                assert(!terminator_at(bytes, j + 1));
            }
        }
        lemma_terminator_pos_none(bytes.drop_first());
    }
}

/// A position with no terminator before it that holds a terminator is
/// exactly [`terminator_pos`].
pub proof fn lemma_terminator_pos_unique(bytes: Seq<u8>, k: int)
    requires
        forall|j: int| 0 <= j < k ==> !terminator_at(bytes, j),
        terminator_at(bytes, k),
    ensures
        terminator_pos(bytes) == k,
{
    lemma_terminator_pos(bytes);
    let e = terminator_pos(bytes) as int;
    if e < k {
        assert(!terminator_at(bytes, e));
    } else if k < e {
        assert(!terminator_at(bytes, k));
    }
}

/// Index of the first blank-line terminator in `buf`, or `buf.len()` when
/// there is none.
pub fn find_terminator(buf: &Vec<u8>) -> (r: usize)
    ensures
        r == terminator_pos(buf@),
{
    let len = buf.len();
    if len < 4 {
        proof {
            lemma_terminator_pos_none(buf@);
        }
        return len;
    }
    let mut i: usize = 0;
    while i + 3 < len
        invariant
            i + 3 <= len,
            len == buf@.len(),
            forall|j: int| 0 <= j < i ==> !terminator_at(buf@, j),
        decreases len - i,
    {
        if buf[i] == 13 && buf[i + 1] == 10 && buf[i + 2] == 13 && buf[i + 3] == 10 {
            proof {
                lemma_terminator_pos_unique(buf@, i as int);
            }
            return i;
        }
        i += 1;
    }
    proof {
        assert forall|j: int| !terminator_at(buf@, j) by {
            if 0 <= j && j + 4 <= len {
                assert(j < i);
            }
        }
        lemma_terminator_pos_none(buf@);
    }
    len
}

} // verus!
