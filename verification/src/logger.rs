//! Text for the peak-usage log: timestamps and the displayed log path.

use vstd::prelude::*;

use crate::calendar::{civil_date, civil_from_days};
use crate::fmt::{padded, push_padded};
use crate::text::{chars_of, push_all, push_char};

verus! {

/// The ISO-8601 timestamp of the moment `secs` seconds after the Unix epoch,
/// in UTC: the proleptic Gregorian date, then the time of day.
pub open spec fn iso8601_text(secs: u64) -> Seq<char> {
    let s = secs % 60;
    let m = (secs / 60) % 60;
    let h = (secs / 3600) % 24;
    let (year, month, day) = civil_date((secs / 86400) as nat);
    padded(year as nat, 4) + seq!['-'] + padded(month as nat, 2) + seq!['-'] + padded(day as nat, 2)
        + seq!['T'] + padded(h as nat, 2) + seq![':'] + padded(m as nat, 2) + seq![':']
        + padded(s as nat, 2) + seq!['Z']
}

/// Formats `secs` seconds after the Unix epoch as `YYYY-MM-DDThh:mm:ssZ`.
pub fn iso8601_from_secs(secs: u64) -> (text: String)
    ensures
        text@ == iso8601_text(secs),
{
    let s = secs % 60;
    let m = (secs / 60) % 60;
    let h = (secs / 3600) % 24;
    let days = secs / 86400;
    let (year, month, day) = civil_from_days(days);
    let mut out = String::new();
    push_padded(&mut out, year, 4);
    push_char(&mut out, '-');
    push_padded(&mut out, month, 2);
    push_char(&mut out, '-');
    push_padded(&mut out, day, 2);
    push_char(&mut out, 'T');
    push_padded(&mut out, h, 2);
    push_char(&mut out, ':');
    push_padded(&mut out, m, 2);
    push_char(&mut out, ':');
    push_padded(&mut out, s, 2);
    push_char(&mut out, 'Z');
    out
}

/// `pat` occurs in `s` starting at index `i`.
pub open spec fn occurs_at(s: Seq<char>, pat: Seq<char>, i: int) -> bool {
    0 <= i && i + pat.len() <= s.len() && s.subrange(i, i + pat.len()) == pat
}

/// The first index at or after `i` where `pat` occurs in `s`.
pub open spec fn first_match_from(s: Seq<char>, pat: Seq<char>, i: int) -> Option<int>
    decreases s.len() + 1 - i,
{
    if i < 0 || i + pat.len() > s.len() {
        None
    } else if occurs_at(s, pat, i) {
        Some(i)
    } else {
        first_match_from(s, pat, i + 1)
    }
}

/// `s` with the first occurrence of `pat` replaced by `rep`, as
/// `str::replacen(pat, rep, 1)` gives it (an empty `pat` occurs at the start).
pub open spec fn replace_first(s: Seq<char>, pat: Seq<char>, rep: Seq<char>) -> Seq<char> {
    match first_match_from(s, pat, 0) {
        Some(i) => s.take(i) + rep + s.skip(i + pat.len()),
        None => s,
    }
}

fn matches_at(s: &Vec<char>, pat: &Vec<char>, i: usize) -> (b: bool)
    requires
        i + pat.len() <= s.len(),
    ensures
        b == occurs_at(s@, pat@, i as int),
{
    let mut k: usize = 0;
    while k < pat.len()
        invariant
            k <= pat.len(),
            i + pat.len() <= s.len(),
            forall|j: int| 0 <= j < k ==> s@[i + j] == pat@[j],
        decreases pat.len() - k,
    {
        if s[i + k] != pat[k] {
            assert(s@.subrange(i as int, i + pat.len())[k as int] != pat@[k as int]);
            return false;
        }
        k = k + 1;
    }
    assert(s@.subrange(i as int, i + pat.len()) == pat@);
    true
}

/// `s` with the first occurrence of `pat` replaced by `rep`.
pub fn replace_first_exec(s: &Vec<char>, pat: &Vec<char>, rep: &Vec<char>) -> (out: Vec<char>)
    ensures
        out@ == replace_first(s@, pat@, rep@),
{
    let mut i: usize = 0;
    let mut found = false;
    while pat.len() <= s.len() && i <= s.len() - pat.len()
        invariant_except_break
            !found,
        invariant
            first_match_from(s@, pat@, 0) == first_match_from(s@, pat@, i as int),
            i <= s.len(),
        ensures
            found ==> i + pat.len() <= s.len() && first_match_from(s@, pat@, 0) == Some(i as int),
            !found ==> first_match_from(s@, pat@, 0) == None::<int>,
        decreases s.len() + 1 - i,
    {
        if matches_at(s, pat, i) {
            found = true;
            break;
        }
        assert(pat.len() > 0) by {
            if pat.len() == 0 {
                assert(s@.subrange(i as int, i as int) == pat@);
            }
        }
        i = i + 1;
    }
    let mut out: Vec<char> = Vec::new();
    if !found {
        let mut k: usize = 0;
        while k < s.len()
            invariant
                k <= s.len(),
                out@ == s@.take(k as int),
            decreases s.len() - k,
        {
            out.push(s[k]);
            k = k + 1;
            assert(s@.take(k as int) == s@.take(k - 1).push(s@[k - 1]));
        }
        assert(s@.take(s.len() as int) == s@);
        return out;
    }
    let mut k: usize = 0;
    while k < i
        invariant
            k <= i,
            i + pat.len() <= s.len(),
            out@ == s@.take(k as int),
        decreases i - k,
    {
        out.push(s[k]);
        k = k + 1;
        assert(s@.take(k as int) == s@.take(k - 1).push(s@[k - 1]));
    }
    let mut k: usize = 0;
    while k < rep.len()
        invariant
            k <= rep.len(),
            out@ == s@.take(i as int) + rep@.take(k as int),
        decreases rep.len() - k,
    {
        out.push(rep[k]);
        k = k + 1;
        assert(rep@.take(k as int) == rep@.take(k - 1).push(rep@[k - 1]));
    }
    assert(rep@.take(rep.len() as int) == rep@);
    let mut k: usize = i + pat.len();
    while k < s.len()
        invariant
            i + pat.len() <= k <= s.len(),
            out@ == s@.take(i as int) + rep@ + s@.subrange(i + pat.len(), k as int),
        decreases s.len() - k,
    {
        out.push(s[k]);
        k = k + 1;
        assert(s@.subrange(i + pat.len(), k as int) == s@.subrange(i + pat.len(), k - 1).push(s@[k - 1]));
    }
    assert(s@.subrange(i + pat.len(), s.len() as int) == s@.skip(i + pat.len()));
    out
}

/// The log path as shown in the footer: the first occurrence of the home
/// directory `home` in `path` replaced by `~`. An empty `home` (no home
/// directory known) leaves the path as it is.
pub open spec fn shown_path(path: Seq<char>, home: Seq<char>) -> Seq<char> {
    if home.len() == 0 {
        path
    } else {
        replace_first(path, home, seq!['~'])
    }
}

/// The log path as shown in the footer, with the home directory abbreviated.
pub fn display_path(path: &str, home: &str) -> (shown: String)
    ensures
        shown@ == shown_path(path@, home@),
{
    let p = chars_of(path);
    let h = chars_of(home);
    let mut shown = String::new();
    if h.len() == 0 {
        push_all(&mut shown, &p);
        return shown;
    }
    let mut tilde: Vec<char> = Vec::new();
    tilde.push('~');
    let out = replace_first_exec(&p, &h, &tilde);
    push_all(&mut shown, &out);
    shown
}

} // verus!
