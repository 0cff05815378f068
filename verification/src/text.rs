//! Character and string helpers shared by the parsers: ASCII case folding,
//! whitespace classification, first-separator splitting and line
//! splitting, each with the spec functions the parser contracts are
//! stated over.

use vstd::prelude::*;
use vstd::string::StringSliceAdditionalSpecFns;
use vstd::utf8::valid_utf8;

verus! {

/// ASCII lower-casing of one character; anything outside `'A'..='Z'` is kept.
pub open spec fn lower_char(c: char) -> char {
    if 'A' <= c && c <= 'Z' {
        ((c as u32) + 32) as char
    } else {
        c
    }
}

/// ASCII lower-casing of a whole character sequence.
pub open spec fn lower(s: Seq<char>) -> Seq<char> {
    s.map_values(|c: char| lower_char(c))
}

/// The characters `str::trim_start` removes: Unicode `White_Space`.
pub open spec fn is_ws_char(c: char) -> bool {
    c == ' ' || c == '\t' || c == '\n' || c == '\u{b}' || c == '\u{c}' || c == '\r'
        || c == '\u{85}' || c == '\u{a0}' || c == '\u{1680}'
        || ('\u{2000}' <= c && c <= '\u{200a}') || c == '\u{2028}' || c == '\u{2029}'
        || c == '\u{202f}' || c == '\u{205f}' || c == '\u{3000}'
}

/// The sequence with leading whitespace removed.
pub open spec fn trim_start(s: Seq<char>) -> Seq<char>
    decreases s.len(),
{
    if s.len() > 0 && is_ws_char(s[0]) {
        trim_start(s.drop_first())
    } else {
        s
    }
}

/// Index of the first occurrence of `sep` in `s`, or `s.len()` if absent.
pub open spec fn token_end(s: Seq<char>, sep: char) -> nat
    decreases s.len(),
{
    if s.len() == 0 {
        0
    } else if s[0] == sep {
        0
    } else {
        1 + token_end(s.drop_first(), sep)
    }
}

/// What [`token_end`] returns: the position of the first `sep`, if any.
pub proof fn lemma_token_end(s: Seq<char>, sep: char)
    ensures
        token_end(s, sep) <= s.len(),
        token_end(s, sep) < s.len() ==> s[token_end(s, sep) as int] == sep,
        forall|j: int| 0 <= j < token_end(s, sep) ==> s[j] != sep,
    decreases s.len(),
{
    if s.len() > 0 && s[0] != sep {
        lemma_token_end(s.drop_first(), sep);
        assert forall|j: int| 0 <= j < token_end(s, sep) implies s[j] != sep by {
            if j > 0 {
                assert(s.drop_first()[j - 1] != sep);
            }
        }
    }
}

/// A position with no `sep` before it that holds `sep` (or is the end)
/// is exactly [`token_end`].
pub proof fn lemma_token_end_unique(s: Seq<char>, sep: char, k: int)
    requires
        0 <= k <= s.len(),
        forall|j: int| 0 <= j < k ==> s[j] != sep,
        k < s.len() ==> s[k] == sep,
    ensures
        token_end(s, sep) == k,
{
    lemma_token_end(s, sep);
    let e = token_end(s, sep) as int;
    if e < k {
        assert(s[e] != sep);
    } else if k < e {
        assert(s[k] != sep);
    }
}

/// The split of `s` at the first `sep`: `Some((before, after))` when `sep`
/// occurs, as `str::split_once` returns it, and `None` otherwise.
pub open spec fn split_first_at(s: Seq<char>, sep: char) -> Option<(Seq<char>, Seq<char>)> {
    let e = token_end(s, sep);
    if e < s.len() {
        Some((s.take(e as int), s.skip(e as int + 1)))
    } else {
        None
    }
}

/// Executable counterpart of [`lower_char`].
pub fn char_to_lower(c: char) -> (r: char)
    ensures
        r == lower_char(c),
{
    if 'A' <= c && c <= 'Z' {
        ((c as u8) + 32) as char
    } else {
        c
    }
}

/// Executable counterpart of [`is_ws_char`].
pub fn char_is_ws(c: char) -> (r: bool)
    ensures
        r == is_ws_char(c),
{
    c == ' ' || c == '\t' || c == '\n' || c == '\u{b}' || c == '\u{c}' || c == '\r'
        || c == '\u{85}' || c == '\u{a0}' || c == '\u{1680}'
        || ('\u{2000}' <= c && c <= '\u{200a}') || c == '\u{2028}' || c == '\u{2029}'
        || c == '\u{202f}' || c == '\u{205f}' || c == '\u{3000}'
}

/// Character-for-character equality of two string slices.
pub fn str_eq(a: &str, b: &str) -> (r: bool)
    ensures
        r == (a@ == b@),
{
    let a_len = a.unicode_len();
    let b_len = b.unicode_len();
    if a_len != b_len {
        assert(a@ != b@) by {
            assert(a@.len() != b@.len());
        }
        return false;
    }
    let mut i: usize = 0;
    while i < a_len
        invariant
            i <= a_len,
            a_len == a@.len(),
            a_len == b@.len(),
            forall|j: int| 0 <= j < i ==> a@[j] == b@[j],
        decreases a_len - i,
    {
        if a.get_char(i) != b.get_char(i) {
            return false;
        }
        i += 1;
    }
    assert(a@ =~= b@);
    true
}

/// ASCII-case-insensitive equality of two string slices.
pub fn str_eq_ignore_case(a: &str, b: &str) -> (r: bool)
    ensures
        r == (lower(a@) == lower(b@)),
{
    let a_len = a.unicode_len();
    let b_len = b.unicode_len();
    if a_len != b_len {
        assert(lower(a@) != lower(b@)) by {
            assert(lower(a@).len() != lower(b@).len());
        }
        return false;
    }
    let mut i: usize = 0;
    while i < a_len
        invariant
            i <= a_len,
            a_len == a@.len(),
            a_len == b@.len(),
            forall|j: int| 0 <= j < i ==> lower_char(a@[j]) == lower_char(b@[j]),
        decreases a_len - i,
    {
        if char_to_lower(a.get_char(i)) != char_to_lower(b.get_char(i)) {
            assert(lower(a@)[i as int] != lower(b@)[i as int]);
            return false;
        }
        i += 1;
    }
    assert(lower(a@) =~= lower(b@));
    true
}

/// Length of the leading run of non-whitespace characters.
pub open spec fn run_end(s: Seq<char>) -> nat
    decreases s.len(),
{
    if s.len() == 0 {
        0
    } else if is_ws_char(s[0]) {
        0
    } else {
        1 + run_end(s.drop_first())
    }
}

/// What [`run_end`] returns: the position of the first whitespace, if any.
pub proof fn lemma_run_end(s: Seq<char>)
    ensures
        run_end(s) <= s.len(),
        run_end(s) < s.len() ==> is_ws_char(s[run_end(s) as int]),
        forall|j: int| 0 <= j < run_end(s) ==> !is_ws_char(s[j]),
    decreases s.len(),
{
    if s.len() > 0 && !is_ws_char(s[0]) {
        lemma_run_end(s.drop_first());
        assert forall|j: int| 0 <= j < run_end(s) implies !is_ws_char(s[j]) by {
            if j > 0 {
                assert(!is_ws_char(s.drop_first()[j - 1]));
            }
        }
    }
}

/// A position with no whitespace before it that holds whitespace (or is
/// the end) is exactly [`run_end`].
pub proof fn lemma_run_end_unique(s: Seq<char>, k: int)
    requires
        0 <= k <= s.len(),
        forall|j: int| 0 <= j < k ==> !is_ws_char(s[j]),
        k < s.len() ==> is_ws_char(s[k]),
    ensures
        run_end(s) == k,
{
    lemma_run_end(s);
    let e = run_end(s) as int;
    if e < k {
        assert(!is_ws_char(s[e]));
    } else if k < e {
        assert(!is_ws_char(s[k]));
    }
}

/// The whitespace-separated tokens of `s`, in order, as
/// `str::split_whitespace` yields them: maximal runs of non-whitespace.
pub open spec fn ws_tokens(s: Seq<char>) -> Seq<Seq<char>>
    decreases s.len(),
{
    if s.len() == 0 {
        Seq::empty()
    } else if is_ws_char(s[0]) {
        ws_tokens(s.drop_first())
    } else {
        let e = run_end(s);
        if e >= s.len() {
            seq![s]
        } else {
            seq![s.take(e as int)] + ws_tokens(s.skip(e as int))
        }
    }
}

/// Index of the first whitespace character in `s` at or after `from`, or
/// `s@.len()` if there is none.
pub fn find_ws_from(s: &str, from: usize) -> (end: usize)
    requires
        from <= s@.len(),
    ensures
        from <= end <= s@.len(),
        end - from == run_end(s@.skip(from as int)),
        end < s@.len() ==> is_ws_char(s@[end as int]),
        forall|j: int| from <= j < end ==> !is_ws_char(s@[j]),
{
    let len = s.unicode_len();
    let mut i: usize = from;
    while i < len
        invariant
            from <= i <= len,
            len == s@.len(),
            forall|j: int| from <= j < i ==> !is_ws_char(s@[j]),
        decreases len - i,
    {
        if char_is_ws(s.get_char(i)) {
            proof {
                lemma_run_end_unique(s@.skip(from as int), i - from);
            }
            return i;
        }
        i += 1;
    }
    proof {
        lemma_run_end_unique(s@.skip(from as int), len - from);
    }
    len
}

/// The whitespace-separated tokens of `s`, as `str::split_whitespace`
/// yields them.
pub fn split_whitespace_exec<'a>(s: &'a str) -> (r: Vec<&'a str>)
    ensures
        r.deep_view() == ws_tokens(s@),
{
    let len = s.unicode_len();
    let mut tokens: Vec<&str> = Vec::new();
    let ghost mut done: Seq<Seq<char>> = Seq::empty();
    let mut p: usize = 0;
    proof {
        assert(s@.skip(0) =~= s@);
        assert(tokens.deep_view() =~= done);
    }
    loop
        invariant_except_break
            p <= len,
            len == s@.len(),
            ws_tokens(s@) == done + ws_tokens(s@.skip(p as int)),
            tokens.deep_view() == done,
        ensures
            tokens.deep_view() == ws_tokens(s@),
        decreases len - p,
    {
        if p == len {
            proof {
                assert(done + ws_tokens(s@.skip(p as int)) =~= done);
            }
            break;
        }
        if char_is_ws(s.get_char(p)) {
            proof {
                assert(s@.skip(p as int).drop_first() =~= s@.skip(p + 1));
            }
            p += 1;
        } else {
            let q = find_ws_from(s, p);
            let tok = s.substring_char(p, q);
            proof {
                let t = s@.skip(p as int);
                assert(t[0] == s@[p as int]);
                if q < len {
                    assert(t.take(q - p) =~= s@.subrange(p as int, q as int));
                    assert(t.skip(q - p) =~= s@.skip(q as int));
                    assert(ws_tokens(t) == seq![tok@] + ws_tokens(s@.skip(q as int)));
                } else {
                    assert(t =~= s@.subrange(p as int, q as int));
                    assert(s@.skip(q as int) =~= Seq::<char>::empty());
                    assert(ws_tokens(t) =~= seq![tok@] + ws_tokens(s@.skip(q as int)));
                }
            }
            tokens.push(tok);
            proof {
                let prev = done;
                done = done.push(tok@);
                assert(tokens.deep_view() =~= done);
                assert(prev + (seq![tok@] + ws_tokens(s@.skip(q as int)))
                    =~= done + ws_tokens(s@.skip(q as int)));
            }
            p = q;
        }
    }
    tokens
}

/// Whether a CR LF pair starts at `j`.
pub open spec fn crlf_at(s: Seq<char>, j: int) -> bool {
    &&& 0 <= j
    &&& j + 2 <= s.len()
    &&& s[j] == '\r'
    &&& s[j + 1] == '\n'
}

/// Position of the first CR LF pair; `s.len()` when there is none.
pub open spec fn crlf_end(s: Seq<char>) -> nat
    decreases s.len(),
{
    if s.len() < 2 {
        s.len()
    } else if s[0] == '\r' && s[1] == '\n' {
        0
    } else {
        1 + crlf_end(s.drop_first())
    }
}

/// What [`crlf_end`] returns: the position of the first CR LF, if any.
pub proof fn lemma_crlf_end(s: Seq<char>)
    ensures
        crlf_end(s) <= s.len(),
        crlf_end(s) < s.len() ==> crlf_end(s) + 2 <= s.len(),
        crlf_end(s) + 2 <= s.len() ==> crlf_at(s, crlf_end(s) as int),
        forall|j: int| 0 <= j < crlf_end(s) ==> !crlf_at(s, j),
    decreases s.len(),
{
    if s.len() >= 2 && !(s[0] == '\r' && s[1] == '\n') {
        lemma_crlf_end(s.drop_first());
        let e = crlf_end(s);
        assert forall|j: int| 0 <= j < e implies !crlf_at(s, j) by {
            if j > 0 {
                assert(!crlf_at(s.drop_first(), j - 1));
                assert(forall|k: int| 0 <= k < s.len() - 1 ==> s.drop_first()[k] == s[k + 1]);
            }
        }
        if e + 2 <= s.len() {
            assert(crlf_at(s.drop_first(), e - 1));
            assert(forall|k: int| 0 <= k < s.len() - 1 ==> s.drop_first()[k] == s[k + 1]);
        }
    }
}

/// Without any CR LF pair, [`crlf_end`] is the whole length.
pub proof fn lemma_crlf_end_none(s: Seq<char>)
    requires
        forall|j: int| !crlf_at(s, j),
    ensures
        crlf_end(s) == s.len(),
    decreases s.len(),
{
    if s.len() >= 2 {
        assert(!crlf_at(s, 0));
        assert forall|j: int| !crlf_at(s.drop_first(), j) by {
            if 0 <= j && j + 2 <= s.len() - 1 {
                assert(forall|k: int| 0 <= k < s.len() - 1 ==> s.drop_first()[k] == s[k + 1]);
                assert(!crlf_at(s, j + 1));
            }
        }
        lemma_crlf_end_none(s.drop_first());
    }
}

/// A position with no CR LF before it that holds CR LF is exactly
/// [`crlf_end`].
pub proof fn lemma_crlf_end_unique(s: Seq<char>, k: int)
    requires
        forall|j: int| 0 <= j < k ==> !crlf_at(s, j),
        crlf_at(s, k),
    ensures
        crlf_end(s) == k,
{
    lemma_crlf_end(s);
    let e = crlf_end(s) as int;
    if e < k {
        assert(!crlf_at(s, e));
    } else if k < e {
        assert(!crlf_at(s, k));
    }
}

/// The parts of `s` between CR LF pairs, in order, as `str::split` on
/// `"\r\n"` yields them; text without CR LF is one part.
pub open spec fn split_crlf(s: Seq<char>) -> Seq<Seq<char>>
    decreases s.len(),
{
    let e = crlf_end(s);
    if e + 2 <= s.len() {
        seq![s.take(e as int)] + split_crlf(s.skip(e as int + 2))
    } else {
        seq![s]
    }
}

/// Index of the first CR LF pair in `s` at or after `from`, or `s@.len()`
/// when there is none at or after `from`.
pub fn find_crlf_from(s: &str, from: usize) -> (end: usize)
    requires
        from <= s@.len(),
    ensures
        from <= end <= s@.len(),
        end - from == crlf_end(s@.skip(from as int)),
        end < s@.len() ==> end + 2 <= s@.len(),
        end + 2 <= s@.len() ==> s@[end as int] == '\r' && s@[end + 1] == '\n',
{
    let ghost t = s@.skip(from as int);
    let len = s.unicode_len();
    let mut i: usize = from;
    while i < len && i + 1 < len
        invariant
            from <= i,
            i <= len,
            len == s@.len(),
            t == s@.skip(from as int),
            forall|j: int| 0 <= j < i - from ==> !crlf_at(t, j),
        decreases len - i,
    {
        if s.get_char(i) == '\r' && s.get_char(i + 1) == '\n' {
            proof {
                assert(t[i - from] == s@[i as int]);
                assert(t[i - from + 1] == s@[i + 1]);
                lemma_crlf_end_unique(t, i - from);
            }
            return i;
        }
        proof {
            assert(t[i - from] == s@[i as int]);
            assert(t[i - from + 1] == s@[i + 1]);
        }
        i += 1;
    }
    proof {
        assert forall|j: int| !crlf_at(t, j) by {
            if 0 <= j && j + 2 <= t.len() {
                assert(j < i - from);
            }
        }
        lemma_crlf_end_none(t);
    }
    len
}

/// The parts of `s` between CR LF pairs, as `str::split` on `"\r\n"`
/// yields them.
pub fn split_crlf_exec<'a>(s: &'a str) -> (r: Vec<&'a str>)
    ensures
        r.deep_view() == split_crlf(s@),
{
    let len = s.unicode_len();
    let mut lines: Vec<&str> = Vec::new();
    let ghost mut done: Seq<Seq<char>> = Seq::empty();
    let mut p: usize = 0;
    proof {
        assert(s@.skip(0) =~= s@);
        assert(lines.deep_view() =~= done);
    }
    loop
        invariant_except_break
            p <= len,
            len == s@.len(),
            split_crlf(s@) == done + split_crlf(s@.skip(p as int)),
            lines.deep_view() == done,
        ensures
            lines.deep_view() == split_crlf(s@),
        decreases len - p,
    {
        let q = find_crlf_from(s, p);
        let tok = s.substring_char(p, q);
        let ghost t = s@.skip(p as int);
        proof {
            if q + 2 <= len {
                assert(t.take(q - p) =~= s@.subrange(p as int, q as int));
                assert(t.skip(q - p + 2) =~= s@.skip(q + 2));
                assert(split_crlf(t) == seq![tok@] + split_crlf(s@.skip(q + 2)));
            } else {
                assert(crlf_end(t) + 2 > t.len());
                assert(t =~= s@.subrange(p as int, q as int));
                assert(split_crlf(t) =~= seq![tok@] + Seq::<Seq<char>>::empty());
            }
            assert(lines.deep_view().len() == done.len());
            assert(forall|j: int| 0 <= j < done.len()
                ==> lines.deep_view()[j] == lines@[j]@);
        }
        let ghost prev = lines@;
        lines.push(tok);
        proof {
            assert(lines@ == prev.push(tok));
            let next = done.push(tok@);
            assert(lines.deep_view() =~= next);
            assert(done + (seq![tok@] + split_crlf(s@.skip(q + 2))) =~= next + split_crlf(
                s@.skip(q + 2)));
            assert(done + (seq![tok@] + Seq::<Seq<char>>::empty()) =~= next);
            done = next;
        }
        if q < len {
            p = q + 2;
        } else {
            proof {
                assert(split_crlf(s@) == done);
            }
            break;
        }
    }
    lines
}

/// Relies on `std::str::from_utf8`: it returns a string exactly when the
/// bytes are valid UTF-8, and that string's bytes are the input bytes.
#[verifier::external_body]
pub fn bytes_as_str(v: &[u8]) -> (r: Option<&str>)
    ensures
        r matches Some(s) ==> valid_utf8(v@) && s.spec_bytes() == v@,
        r is None ==> !valid_utf8(v@),
{
    match std::str::from_utf8(v) {
        Ok(s) => Some(s),
        Err(_) => None,
    }
}

/// The slice with leading whitespace removed, as `str::trim_start` trims.
pub fn trim_start_exec(s: &str) -> (r: &str)
    ensures
        r@ == trim_start(s@),
{
    let len = s.unicode_len();
    let mut i: usize = 0;
    proof {
        assert(s@.skip(0) =~= s@);
    }
    while i < len && char_is_ws(s.get_char(i))
        invariant
            i <= len,
            len == s@.len(),
            trim_start(s@) == trim_start(s@.skip(i as int)),
        decreases len - i,
    {
        proof {
            assert(s@.skip(i as int).drop_first() =~= s@.skip(i + 1));
        }
        i += 1;
    }
    let r = s.substring_char(i, len);
    proof {
        assert(r@ =~= s@.skip(i as int));
    }
    r
}

/// Index of the first occurrence of `sep` in `s` at or after `from`,
/// or `s@.len()` if there is none.
pub fn find_char_from(s: &str, from: usize, sep: char) -> (end: usize)
    requires
        from <= s@.len(),
    ensures
        from <= end <= s@.len(),
        end - from == token_end(s@.skip(from as int), sep),
        end < s@.len() ==> s@[end as int] == sep,
        forall|j: int| from <= j < end ==> s@[j] != sep,
{
    let len = s.unicode_len();
    let mut i: usize = from;
    while i < len
        invariant
            from <= i <= len,
            len == s@.len(),
            forall|j: int| from <= j < i ==> s@[j] != sep,
        decreases len - i,
    {
        if s.get_char(i) == sep {
            proof {
                lemma_token_end_unique(s@.skip(from as int), sep, i - from);
            }
            return i;
        }
        i += 1;
    }
    proof {
        lemma_token_end_unique(s@.skip(from as int), sep, len - from);
    }
    len
}

} // verus!
