//! Decimal numerals: the value of a digit string, parsing in the way
//! `str::parse::<usize>` accepts a number, and printing.

use vstd::prelude::*;

verus! {

/// Whether `c` is a decimal digit.
pub open spec fn is_digit(c: char) -> bool {
    '0' <= c && c <= '9'
}

/// The value of one digit character.
pub open spec fn digit_val(c: char) -> int {
    c as u32 - '0' as u32
}

/// The value of a digit string, most significant digit first.
pub open spec fn digits_val(s: Seq<char>) -> int
    decreases s.len(),
{
    if s.len() == 0 {
        0
    } else {
        digits_val(s.drop_last()) * 10 + digit_val(s.last())
    }
}

/// Whether every character of `s` is a decimal digit.
pub open spec fn all_digits(s: Seq<char>) -> bool {
    forall|i: int| 0 <= i < s.len() ==> is_digit(s[i])
}

/// The number `str::parse::<usize>` reads from `s`: an optional `+` sign,
/// then one or more digits, denoting a value that fits in `usize`.
pub open spec fn spec_parse_usize(s: Seq<char>) -> Option<usize> {
    let t = if s.len() > 0 && s[0] == '+' {
        s.drop_first()
    } else {
        s
    };
    if t.len() > 0 && all_digits(t) && digits_val(t) <= usize::MAX as int {
        Some(digits_val(t) as usize)
    } else {
        None
    }
}

/// A digit string has a non-negative value.
pub proof fn lemma_digits_val_nonneg(s: Seq<char>)
    requires
        all_digits(s),
    ensures
        digits_val(s) >= 0,
    decreases s.len(),
{
    if s.len() > 0 {
        assert(all_digits(s.drop_last()));
        lemma_digits_val_nonneg(s.drop_last());
    }
}

/// Dropping trailing digits never increases the value.
pub proof fn lemma_digits_val_prefix(s: Seq<char>, i: int)
    requires
        all_digits(s),
        0 <= i <= s.len(),
    ensures
        digits_val(s.take(i)) <= digits_val(s),
    decreases s.len(),
{
    if i == s.len() {
        assert(s.take(i) =~= s);
    } else {
        assert(all_digits(s.drop_last()));
        assert(s.drop_last().take(i) =~= s.take(i));
        lemma_digits_val_prefix(s.drop_last(), i);
        lemma_digits_val_nonneg(s.drop_last());
    }
}

/// Parse a decimal `usize` exactly as `str::parse::<usize>` does: an
/// optional leading `+`, then one or more digits; `None` on anything else
/// or on a value too large for `usize`.
pub fn parse_usize(s: &str) -> (r: Option<usize>)
    ensures
        r == spec_parse_usize(s@),
{
    let len = s.unicode_len();
    let start: usize = if len > 0 && s.get_char(0) == '+' {
        1
    } else {
        0
    };
    let ghost t = if s@.len() > 0 && s@[0] == '+' {
        s@.drop_first()
    } else {
        s@
    };
    proof {
        assert(t =~= s@.skip(start as int));
    }
    if start >= len {
        return None;
    }
    let mut acc: usize = 0;
    let mut i: usize = start;
    while i < len
        invariant
            start <= i <= len,
            len == s@.len(),
            start <= 1,
            t == s@.skip(start as int),
            t == (if s@.len() > 0 && s@[0] == '+' { s@.drop_first() } else { s@ }),
            forall|j: int| start <= j < i ==> is_digit(s@[j]),
            acc as int == digits_val(s@.subrange(start as int, i as int)),
        decreases len - i,
    {
        let c = s.get_char(i);
        if !('0' <= c && c <= '9') {
            proof {
                assert(t[i - start] == s@[i as int]);
                assert(!all_digits(t));
            }
            return None;
        }
        let d = (c as u8) - 48;
        proof {
            assert(s@.subrange(start as int, i + 1).drop_last() =~= s@.subrange(
                start as int, i as int));
            assert(s@.subrange(start as int, i + 1).last() == s@[i as int]);
        }
        match acc.checked_mul(10) {
            Some(m) => match m.checked_add(d as usize) {
                Some(next) => {
                    acc = next;
                },
                None => {
                    proof {
                        lemma_digits_val_bound_overflow(s@, t, start as int, i as int, acc as int,
                            d as int);
                    }
                    return None;
                },
            },
            None => {
                proof {
                    lemma_digits_val_bound_overflow(s@, t, start as int, i as int, acc as int,
                        d as int);
                }
                return None;
            },
        }
        i += 1;
    }
    proof {
        assert(t =~= s@.subrange(start as int, len as int));
    }
    Some(acc)
}

/// When the next accumulator step overflows, the whole digit string's value
/// is beyond `usize`, so the parse owes `None` whether or not the remaining
/// characters are digits.
proof fn lemma_digits_val_bound_overflow(
    s: Seq<char>,
    t: Seq<char>,
    start: int,
    i: int,
    acc: int,
    d: int,
)
    requires
        0 <= start <= i < s.len(),
        t == s.skip(start),
        forall|j: int| start <= j <= i ==> is_digit(s[j]),
        acc == digits_val(s.subrange(start, i)),
        d == digit_val(s[i]),
        acc * 10 + d > usize::MAX as int,
    ensures
        !(all_digits(t) && digits_val(t) <= usize::MAX as int),
{
    if all_digits(t) {
        assert(s.subrange(start, i + 1).drop_last() =~= s.subrange(start, i));
        assert(s.subrange(start, i + 1).last() == s[i]);
        assert(digits_val(s.subrange(start, i + 1)) == acc * 10 + d);
        assert(t.take(i + 1 - start) =~= s.subrange(start, i + 1));
        lemma_digits_val_prefix(t, i + 1 - start);
    }
}

/// The character of one digit value.
pub open spec fn digit_char(d: int) -> char {
    if d == 0 {
        '0'
    } else if d == 1 {
        '1'
    } else if d == 2 {
        '2'
    } else if d == 3 {
        '3'
    } else if d == 4 {
        '4'
    } else if d == 5 {
        '5'
    } else if d == 6 {
        '6'
    } else if d == 7 {
        '7'
    } else if d == 8 {
        '8'
    } else {
        '9'
    }
}

/// The decimal numeral of a non-negative number, without sign or padding.
pub open spec fn dec_str(n: nat) -> Seq<char>
    decreases n,
{
    if n < 10 {
        seq![digit_char(n as int)]
    } else {
        dec_str(n / 10) + seq![digit_char((n % 10) as int)]
    }
}

/// The decimal numeral of a number, a `-` sign first when it is negative.
pub open spec fn dec_str_signed(n: int) -> Seq<char> {
    if n < 0 {
        seq!['-'] + dec_str((-n) as nat)
    } else {
        dec_str(n as nat)
    }
}

/// The one-character string of one digit.
fn digit_str(d: u64) -> (r: &'static str)
    requires
        d < 10,
    ensures
        r@ == seq![digit_char(d as int)],
{
    proof {
        reveal_strlit("0");
        reveal_strlit("1");
        reveal_strlit("2");
        reveal_strlit("3");
        reveal_strlit("4");
        reveal_strlit("5");
        reveal_strlit("6");
        reveal_strlit("7");
        reveal_strlit("8");
        reveal_strlit("9");
    }
    let r = if d == 0 {
        "0"
    } else if d == 1 {
        "1"
    } else if d == 2 {
        "2"
    } else if d == 3 {
        "3"
    } else if d == 4 {
        "4"
    } else if d == 5 {
        "5"
    } else if d == 6 {
        "6"
    } else if d == 7 {
        "7"
    } else if d == 8 {
        "8"
    } else {
        "9"
    };
    proof {
        assert(r@ =~= seq![digit_char(d as int)]);
    }
    r
}

/// Print a number in decimal.
pub fn u64_to_string(n: u64) -> (s: String)
    ensures
        s@ == dec_str(n as nat),
    decreases n,
{
    let d = n % 10;
    let ds = digit_str(d);
    if n < 10 {
        ds.to_owned()
    } else {
        let mut s = u64_to_string(n / 10);
        s.append(ds);
        s
    }
}

/// Print a signed number in decimal.
pub fn i32_to_string(n: i32) -> (s: String)
    ensures
        s@ == dec_str_signed(n as int),
{
    let wide = n as i64;
    if wide < 0 {
        let mut s = String::from_str("-");
        proof {
            reveal_strlit("-");
            assert(s@ =~= seq!['-']);
        }
        let digits = u64_to_string((-wide) as u64);
        s.append(digits.as_str());
        s
    } else {
        u64_to_string(n as u64)
    }
}

} // verus!
