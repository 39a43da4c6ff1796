//! Text utilities: case-insensitive substring matching and decimal
//! rendering of integers, with exact specifications.

use vstd::prelude::*;
use vstd::string::StrSliceExecFns;
use vstd::string::StringExecFns;

verus! {

/// ASCII lowercasing of a single character; other characters are unchanged.
pub open spec fn lower_char(c: char) -> char {
    if 'A' <= c && c <= 'Z' {
        ((c as u8) + 32) as char
    } else {
        c
    }
}

/// ASCII lowercasing of a character sequence.
pub open spec fn lower(s: Seq<char>) -> Seq<char> {
    s.map_values(|c: char| lower_char(c))
}

/// `needle` occurs in `hay` starting at position `i`.
pub open spec fn occurs_at(hay: Seq<char>, needle: Seq<char>, i: int) -> bool {
    &&& 0 <= i
    &&& i + needle.len() <= hay.len()
    &&& hay.subrange(i, i + needle.len()) == needle
}

/// `needle` occurs somewhere in `hay` (an empty needle always occurs).
pub open spec fn contains_seq(hay: Seq<char>, needle: Seq<char>) -> bool {
    exists|i: int| occurs_at(hay, needle, i)
}

/// Case-insensitive containment, the matching rule used by search.
pub open spec fn contains_ci(hay: Seq<char>, needle: Seq<char>) -> bool {
    contains_seq(lower(hay), lower(needle))
}

/// The characters of a string as a vector.
pub fn chars_of(s: &str) -> (r: Vec<char>)
    ensures
        r@ == s@,
{
    let n = s.unicode_len();
    let mut r: Vec<char> = Vec::new();
    let mut i: usize = 0;
    while i < n
        invariant
            n == s@.len(),
            i <= n,
            r@ == s@.subrange(0, i as int),
        decreases n - i,
    {
        r.push(s.get_char(i));
        i = i + 1;
        proof {
            assert(r@ =~= s@.subrange(0, i as int));
        }
    }
    proof {
        assert(r@ =~= s@);
    }
    r
}

/// ASCII-lowercase every character of a vector.
pub fn lower_chars(v: &Vec<char>) -> (r: Vec<char>)
    ensures
        r@ == lower(v@),
{
    let mut r: Vec<char> = Vec::new();
    let mut i: usize = 0;
    while i < v.len()
        invariant
            i <= v@.len(),
            r@ == lower(v@.subrange(0, i as int)),
        decreases v@.len() - i,
    {
        let c = v[i];
        let lc: char = if 'A' <= c && c <= 'Z' {
            ((c as u8) + 32) as char
        } else {
            c
        };
        assert(lc == lower_char(c));
        r.push(lc);
        i = i + 1;
        proof {
            assert(r@ =~= lower(v@.subrange(0, i as int)));
        }
    }
    proof {
        assert(r@ =~= lower(v@));
    }
    r
}

/// Whether `needle` occurs in `hay` at position `i` (exact comparison).
fn occurs_here(hay: &Vec<char>, needle: &Vec<char>, i: usize) -> (r: bool)
    requires
        i + needle@.len() <= hay@.len(),
    ensures
        r == occurs_at(hay@, needle@, i as int),
{
    let hlen = hay.len();
    let mut j: usize = 0;
    while j < needle.len()
        invariant
            hay@.len() == hlen,
            i + needle@.len() <= hay@.len(),
            j <= needle@.len(),
            forall|k: int| 0 <= k < j ==> hay@[i + k] == needle@[k],
        decreases needle@.len() - j,
    {
        if hay[i + j] != needle[j] {
            assert(hay@.subrange(i as int, i + needle@.len()) != needle@) by {
                assert(hay@.subrange(i as int, i + needle@.len())[j as int] != needle@[j as int]);
            }
            return false;
        }
        j = j + 1;
    }
    proof {
        assert(hay@.subrange(i as int, i + needle@.len()) =~= needle@);
    }
    true
}

/// Exact substring search over character vectors.
fn contains_chars(hay: &Vec<char>, needle: &Vec<char>) -> (r: bool)
    ensures
        r == contains_seq(hay@, needle@),
{
    if needle.len() > hay.len() {
        assert(forall|i: int| !occurs_at(hay@, needle@, i));
        return false;
    }
    let last = hay.len() - needle.len();
    let mut i: usize = 0;
    loop
        invariant
            needle@.len() <= hay@.len(),
            last == hay@.len() - needle@.len(),
            i <= last,
            forall|k: int| 0 <= k < i ==> !occurs_at(hay@, needle@, k),
        ensures
            forall|k: int| 0 <= k <= last ==> !occurs_at(hay@, needle@, k),
        decreases last - i,
    {
        if occurs_here(hay, needle, i) {
            return true;
        }
        if i == last {
            break;
        }
        i = i + 1;
    }
    assert(forall|k: int| k > last ==> !occurs_at(hay@, needle@, k));
    assert(forall|k: int| !occurs_at(hay@, needle@, k));
    false
}

/// Case-insensitive substring test: does `needle` occur in `hay` when both
/// are ASCII-lowercased?
pub fn contains_ci_str(hay: &str, needle: &str) -> (r: bool)
    ensures
        r == contains_ci(hay@, needle@),
{
    let hc = lower_chars(&chars_of(hay));
    let nc = lower_chars(&chars_of(needle));
    contains_chars(&hc, &nc)
}

/// The decimal digit character for a value below ten.
pub open spec fn digit_char(d: int) -> char {
    if d == 0 {
        '0'
    } else if d == 1 {
        '1'
    } else if d == 2 {
        '2'
    } else if d == 3 {
        '3'
    } else if d == 4 {
        '4'
    } else if d == 5 {
        '5'
    } else if d == 6 {
        '6'
    } else if d == 7 {
        '7'
    } else if d == 8 {
        '8'
    } else {
        '9'
    }
}

/// The decimal numeral of a natural number, most significant digit first.
pub open spec fn dec_nat(n: nat) -> Seq<char>
    decreases n,
{
    if n < 10 {
        seq![digit_char(n as int)]
    } else {
        dec_nat(n / 10) + seq![digit_char((n % 10) as int)]
    }
}

/// The decimal numeral of an integer, with a leading minus sign if negative.
pub open spec fn dec_int(i: int) -> Seq<char> {
    if i < 0 {
        seq!['-'] + dec_nat((-i) as nat)
    } else {
        dec_nat(i as nat)
    }
}

/// A one-character string slice for a decimal digit.
fn digit_str(d: u64) -> (r: &'static str)
    requires
        d < 10,
    ensures
        r@ == seq![digit_char(d as int)],
{
    proof {
        reveal_strlit("0");
        reveal_strlit("1");
        reveal_strlit("2");
        reveal_strlit("3");
        reveal_strlit("4");
        reveal_strlit("5");
        reveal_strlit("6");
        reveal_strlit("7");
        reveal_strlit("8");
        reveal_strlit("9");
    }
    match d {
        0 => "0",
        1 => "1",
        2 => "2",
        3 => "3",
        4 => "4",
        5 => "5",
        6 => "6",
        7 => "7",
        8 => "8",
        _ => "9",
    }
}

/// Append the decimal numeral of `n` to `out`.
pub fn push_dec_u64(out: &mut String, n: u64)
    ensures
        final(out)@ == old(out)@ + dec_nat(n as nat),
    decreases n,
{
    if n < 10 {
        out.append(digit_str(n));
    } else {
        push_dec_u64(out, n / 10);
        out.append(digit_str(n % 10));
        proof {
            assert(final(out)@ =~= old(out)@ + dec_nat(n as nat));
        }
    }
}

/// The decimal numeral of a signed integer as a string.
pub fn i64_to_string(x: i64) -> (r: String)
    ensures
        r@ == dec_int(x as int),
{
    let mut out = String::new();
    if x < 0 {
        proof {
            reveal_strlit("-");
        }
        out.append("-");
        // Avoid overflow when negating i64::MIN: negate x + 1, then add 1.
        let mag: u64 = ((-(x + 1)) as u64) + 1;
        assert(mag as int == -(x as int));
        push_dec_u64(&mut out, mag);
        proof {
            assert(out@ =~= dec_int(x as int));
        }
    } else {
        push_dec_u64(&mut out, x as u64);
        proof {
            assert(out@ =~= dec_int(x as int));
        }
    }
    out
}

} // verus!
