//! Date normalization: an RFC 2822 timestamp from a feed is reduced to the
//! canonical `YYYY-MM-DD` form. A timestamp that does not parse degrades to
//! an absent field rather than an error.

use crate::text::dec_nat;
use crate::text::push_dec_u64;
use chrono::Datelike;
use vstd::prelude::*;
use vstd::string::StringExecFns;

verus! {

/// The calendar date (year, month, day) that `s` denotes as an RFC 2822
/// timestamp, or `None` where `s` is not one. Determined by the characters
/// of `s` alone; its value is fixed by the date parser relied on below.
pub uninterp spec fn rfc2822_ymd(s: Seq<char>) -> Option<(int, int, int)>;

/// Relies on chrono::DateTime::parse_from_rfc2822 and the Datelike accessors
/// year, month and day: the parsed calendar date depends on the input string
/// alone, month is in 1..=12 and day is in 1..=31 as chrono documents.
#[verifier::external_body]
fn parse_rfc2822(s: &str) -> (r: Option<(i32, u32, u32)>)
    ensures
        r matches Some(t) ==> rfc2822_ymd(s@) == Some((t.0 as int, t.1 as int, t.2 as int)) && 1
            <= t.1 <= 12 && 1 <= t.2 <= 31,
        r is None ==> rfc2822_ymd(s@) is None,
{
    match chrono::DateTime::parse_from_rfc2822(s) {
        Ok(dt) => Some((dt.year(), dt.month(), dt.day())),
        Err(_) => None,
    }
}

/// A numeral zero-padded on the left to `w` characters; numerals already
/// that wide are unchanged.
pub open spec fn zero_pad(s: Seq<char>, w: nat) -> Seq<char>
    decreases w,
{
    if s.len() >= w {
        s
    } else {
        seq!['0'] + zero_pad(s, (w - 1) as nat)
    }
}

/// The canonical `YYYY-MM-DD` form of a calendar date: the year zero-padded
/// to four digits (sign first when negative), month and day to two.
pub open spec fn date_string(y: int, m: int, d: int) -> Seq<char> {
    let year = if y < 0 {
        seq!['-'] + zero_pad(dec_nat((-y) as nat), 4)
    } else {
        zero_pad(dec_nat(y as nat), 4)
    };
    year + seq!['-'] + zero_pad(dec_nat(m as nat), 2) + seq!['-'] + zero_pad(dec_nat(d as nat), 2)
}

/// The normalized form of an optional date field: absent stays absent, a
/// parseable timestamp becomes `YYYY-MM-DD`, an unparseable one degrades to
/// absent.
pub open spec fn spec_normalize_date(d: Option<Seq<char>>) -> Option<Seq<char>> {
    match d {
        None => None,
        Some(s) => match rfc2822_ymd(s) {
            None => None,
            Some((y, m, dd)) => Some(date_string(y, m, dd)),
        },
    }
}

/// How many characters `dec_nat` uses for `n`.
proof fn lemma_dec_nat_len(n: nat)
    ensures
        n < 10 ==> dec_nat(n).len() == 1,
        10 <= n < 100 ==> dec_nat(n).len() == 2,
        100 <= n < 1000 ==> dec_nat(n).len() == 3,
        1000 <= n < 10000 ==> dec_nat(n).len() == 4,
        10000 <= n ==> dec_nat(n).len() >= 5,
    decreases n,
{
    if n >= 10 {
        lemma_dec_nat_len(n / 10);
    }
}

/// Append `n` to `out`, zero-padded to `w` characters.
fn push_padded(out: &mut String, n: u64, w: u64)
    requires
        n < 10000,
        w <= 4,
    ensures
        final(out)@ == old(out)@ + zero_pad(dec_nat(n as nat), w as nat),
{
    proof {
        reveal_strlit("0");
        lemma_dec_nat_len(n as nat);
    }
    let digits: u64 = if n < 10 {
        1
    } else if n < 100 {
        2
    } else if n < 1000 {
        3
    } else {
        4
    };
    let ghost s = dec_nat(n as nat);
    let mut rem: u64 = w;
    while rem > digits
        invariant
            digits == s.len(),
            s == dec_nat(n as nat),
            rem <= 4,
            out@ + zero_pad(s, rem as nat) == old(out)@ + zero_pad(s, w as nat),
        decreases rem,
    {
        proof {
            reveal_strlit("0");
            assert(zero_pad(s, rem as nat) == seq!['0'] + zero_pad(s, (rem - 1) as nat));
        }
        let ghost before = out@;
        out.append("0");
        proof {
            assert("0"@ =~= seq!['0']);
            assert(out@ =~= before + seq!['0']);
            assert(out@ + zero_pad(s, (rem - 1) as nat) =~= before + zero_pad(s, rem as nat));
        }
        rem = rem - 1;
    }
    proof {
        assert(zero_pad(s, rem as nat) == s);
    }
    push_dec_u64(out, n);
}

/// Build the canonical `YYYY-MM-DD` string for a calendar date.
fn format_date(y: i32, m: u32, d: u32) -> (r: String)
    requires
        1 <= m <= 12,
        1 <= d <= 31,
    ensures
        r@ == date_string(y as int, m as int, d as int),
{
    proof {
        reveal_strlit("-");
    }
    let mut out = String::new();
    if y < 0 {
        out.append("-");
        let mag: u64 = ((-(y as i64 + 1)) as u64) + 1;
        assert(mag as int == -(y as int));
        if mag < 10000 {
            push_padded(&mut out, mag, 4);
        } else {
            proof {
                lemma_dec_nat_len(mag as nat);
                assert(zero_pad(dec_nat(mag as nat), 4) == dec_nat(mag as nat));
            }
            push_dec_u64(&mut out, mag);
        }
    } else {
        let mag: u64 = y as u64;
        if mag < 10000 {
            push_padded(&mut out, mag, 4);
        } else {
            proof {
                lemma_dec_nat_len(mag as nat);
                assert(zero_pad(dec_nat(mag as nat), 4) == dec_nat(mag as nat));
            }
            push_dec_u64(&mut out, mag);
        }
    }
    out.append("-");
    push_padded(&mut out, m as u64, 2);
    out.append("-");
    push_padded(&mut out, d as u64, 2);
    proof {
        assert(out@ =~= date_string(y as int, m as int, d as int));
    }
    out
}

/// Normalize an optional date field: `None` stays `None`, a parseable
/// RFC 2822 timestamp becomes `YYYY-MM-DD`, anything else becomes `None`.
pub fn normalize_date(d: Option<&str>) -> (r: Option<String>)
    ensures
        r.deep_view() == spec_normalize_date(d.deep_view()),
{
    match d {
        None => None,
        Some(s) => match parse_rfc2822(s) {
            None => None,
            Some((y, m, dd)) => Some(format_date(y, m, dd)),
        },
    }
}

} // verus!
