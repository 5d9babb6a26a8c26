//! Character-level helpers shared by the parsers and formatters.

use vstd::prelude::*;

verus! {

/// Unicode `White_Space`, the property behind `char::is_whitespace`.
pub open spec fn is_space(c: char) -> bool {
    let u = c as u32;
    ||| (0x09 <= u && u <= 0x0D)
    ||| u == 0x20
    ||| u == 0x85
    ||| u == 0xA0
    ||| u == 0x1680
    ||| (0x2000 <= u && u <= 0x200A)
    ||| u == 0x2028
    ||| u == 0x2029
    ||| u == 0x202F
    ||| u == 0x205F
    ||| u == 0x3000
}

/// Whether `c` is whitespace in the sense of `char::is_whitespace`.
pub fn is_space_char(c: char) -> (b: bool)
    ensures
        b == is_space(c),
{
    let u = c as u32;
    (0x09 <= u && u <= 0x0D) || u == 0x20 || u == 0x85 || u == 0xA0 || u == 0x1680
        || (0x2000 <= u && u <= 0x200A) || u == 0x2028 || u == 0x2029 || u == 0x202F
        || u == 0x205F || u == 0x3000
}

/// The characters of `s`, in order.
pub fn chars_of(s: &str) -> (v: Vec<char>)
    ensures
        v@ == s@,
{
    broadcast use vstd::string::group_string_axioms;

    let mut v: Vec<char> = Vec::new();
    for c in it: s.chars()
        invariant
            v@ == it.seq().take(it.index()),
    {
        v.push(c);
    }
    v
}


/// Appends `c` to `s`: `String::push`.
#[verifier::external_body]
pub fn push_char(s: &mut String, c: char)
    ensures
        final(s)@ == old(s)@.push(c),
{
    s.push(c)
}

/// A `String` holding exactly the characters of `v`.
pub fn string_from(v: &Vec<char>) -> (s: String)
    ensures
        s@ == v@,
{
    let mut s = String::new();
    let mut i: usize = 0;
    while i < v.len()
        invariant
            i <= v.len(),
            s@ == v@.take(i as int),
        decreases v.len() - i,
    {
        push_char(&mut s, v[i]);
        i = i + 1;
        assert(v@.take(i as int) == v@.take(i - 1).push(v@[i - 1]));
    }
    assert(v@.take(v.len() as int) == v@);
    s
}

/// Appends the characters of `t` to `s`.
pub fn push_all(s: &mut String, t: &Vec<char>)
    ensures
        final(s)@ == old(s)@ + t@,
{
    let mut i: usize = 0;
    while i < t.len()
        invariant
            i <= t.len(),
            s@ == old(s)@ + t@.take(i as int),
        decreases t.len() - i,
    {
        push_char(s, t[i]);
        i = i + 1;
        assert(t@.take(i as int) == t@.take(i - 1).push(t@[i - 1]));
    }
    assert(t@.take(t.len() as int) == t@);
}

/// The words of `rest`, when the word in progress so far is `cur`:
/// maximal runs of non-whitespace characters, as `str::split_whitespace` gives them.
pub open spec fn words_from(cur: Seq<char>, rest: Seq<char>) -> Seq<Seq<char>>
    decreases rest.len(),
{
    if rest.len() == 0 {
        if cur.len() > 0 { seq![cur] } else { seq![] }
    } else if is_space(rest[0]) {
        (if cur.len() > 0 { seq![cur] } else { seq![] }) + words_from(seq![], rest.drop_first())
    } else {
        words_from(cur.push(rest[0]), rest.drop_first())
    }
}

/// The whitespace-separated words of `s`.
pub open spec fn words(s: Seq<char>) -> Seq<Seq<char>> {
    words_from(seq![], s)
}

/// Splits `s` into its whitespace-separated words.
pub fn split_words(s: &Vec<char>) -> (out: Vec<Vec<char>>)
    ensures
        out@.len() == words(s@).len(),
        forall|k: int| 0 <= k < out@.len() ==> (#[trigger] out@[k])@ == words(s@)[k],
{
    let mut out: Vec<Vec<char>> = Vec::new();
    let mut cur: Vec<char> = Vec::new();
    let mut i: usize = 0;
    let ghost done: Seq<Seq<char>> = seq![];
    assert(s@.skip(0) == s@);
    assert(done + words_from(cur@, s@.skip(0)) == words_from(cur@, s@.skip(0)));
    while i < s.len()
        invariant
            i <= s.len(),
            out@.len() == done.len(),
            forall|k: int| 0 <= k < out@.len() ==> (#[trigger] out@[k])@ == done[k],
            done + words_from(cur@, s@.skip(i as int)) == words(s@),
        decreases s.len() - i,
    {
        let c = s[i];
        assert(s@.skip(i as int).drop_first() == s@.skip(i + 1));
        if is_space_char(c) {
            if cur.len() > 0 {
                proof {
                    assert(done + seq![cur@] + words_from(seq![], s@.skip(i + 1)) == words(s@));
                    done = done.push(cur@);
                }
                out.push(cur);
                cur = Vec::new();
            } else {
                assert(seq![] + words_from(seq![], s@.skip(i + 1)) == words_from(seq![], s@.skip(i + 1)));
                assert(cur@ == Seq::<char>::empty());
            }
        } else {
            cur.push(c);
        }
        i = i + 1;
    }
    if cur.len() > 0 {
        proof {
            done = done.push(cur@);
        }
        out.push(cur);
    }
    assert(done == words(s@));
    out
}


/// `s` without its leading whitespace.
pub open spec fn trim_start(s: Seq<char>) -> Seq<char>
    decreases s.len(),
{
    if s.len() > 0 && is_space(s[0]) {
        trim_start(s.drop_first())
    } else {
        s
    }
}

/// `s` without its trailing whitespace.
pub open spec fn trim_end(s: Seq<char>) -> Seq<char>
    decreases s.len(),
{
    if s.len() > 0 && is_space(s.last()) {
        trim_end(s.drop_last())
    } else {
        s
    }
}

/// `s` without leading and trailing whitespace, as `str::trim` gives it.
pub open spec fn trim(s: Seq<char>) -> Seq<char> {
    trim_end(trim_start(s))
}

proof fn lemma_trim_start_skip(s: Seq<char>, lo: int)
    requires
        0 <= lo <= s.len(),
        forall|j: int| 0 <= j < lo ==> #[trigger] is_space(s[j]),
        lo < s.len() ==> !is_space(s[lo]),
    ensures
        trim_start(s) == s.skip(lo),
    decreases lo,
{
    if lo == 0 {
        assert(s.skip(0) == s);
    } else {
        assert(is_space(s[0]));
        assert forall|j: int| 0 <= j < lo - 1 implies #[trigger] is_space(s.drop_first()[j]) by {
            assert(is_space(s[j + 1]));
        }
        lemma_trim_start_skip(s.drop_first(), lo - 1);
        assert(s.drop_first().skip(lo - 1) == s.skip(lo));
    }
}

proof fn lemma_trim_end_take(s: Seq<char>, hi: int)
    requires
        0 <= hi <= s.len(),
        forall|j: int| hi <= j < s.len() ==> #[trigger] is_space(s[j]),
        hi > 0 ==> !is_space(s[hi - 1]),
    ensures
        trim_end(s) == s.take(hi),
    decreases s.len() - hi,
{
    if hi == s.len() {
        assert(s.take(hi) == s);
    } else {
        assert(is_space(s.last()));
        assert forall|j: int| hi <= j < s.drop_last().len() implies #[trigger] is_space(s.drop_last()[j]) by {
            assert(is_space(s[j]));
        }
        lemma_trim_end_take(s.drop_last(), hi);
        assert(s.drop_last().take(hi) == s.take(hi));
    }
}

/// `s` with leading and trailing whitespace removed.
pub fn trimmed(s: &Vec<char>) -> (t: Vec<char>)
    ensures
        t@ == trim(s@),
{
    let mut lo: usize = 0;
    while lo < s.len() && is_space_char(s[lo])
        invariant
            lo <= s.len(),
            forall|j: int| 0 <= j < lo ==> #[trigger] is_space(s@[j]),
        decreases s.len() - lo,
    {
        lo = lo + 1;
    }
    proof {
        lemma_trim_start_skip(s@, lo as int);
    }
    let ghost rest = s@.skip(lo as int);
    let mut hi: usize = s.len();
    while hi > lo && is_space_char(s[hi - 1])
        invariant
            lo <= hi <= s.len(),
            forall|j: int| hi <= j < s.len() ==> #[trigger] is_space(s@[j]),
        decreases hi,
    {
        hi = hi - 1;
    }
    let mut t: Vec<char> = Vec::new();
    let mut i: usize = lo;
    while i < hi
        invariant
            lo <= i <= hi,
            hi <= s.len(),
            t@ == s@.subrange(lo as int, i as int),
        decreases hi - i,
    {
        t.push(s[i]);
        i = i + 1;
        assert(s@.subrange(lo as int, i as int) == s@.subrange(lo as int, i - 1).push(s@[i - 1]));
    }
    proof {
        assert forall|j: int| (hi - lo) <= j < rest.len() implies #[trigger] is_space(rest[j]) by {
            assert(rest[j] == s@[j + lo]);
        }
        if hi > lo {
            assert(rest[hi - lo - 1] == s@[hi - 1]);
        }
        lemma_trim_end_take(rest, hi - lo);
        assert(rest.take(hi - lo) == s@.subrange(lo as int, hi as int));
    }
    t
}


/// The lines of `rest`, when the line in progress so far is `cur`: the pieces
/// between `'\n'` characters. A line's trailing `'\r'`, if any, stays in it;
/// it is whitespace and so never part of a word.
pub open spec fn lines_from(cur: Seq<char>, rest: Seq<char>) -> Seq<Seq<char>>
    decreases rest.len(),
{
    if rest.len() == 0 {
        seq![cur]
    } else if rest[0] == '\n' {
        seq![cur] + lines_from(seq![], rest.drop_first())
    } else {
        lines_from(cur.push(rest[0]), rest.drop_first())
    }
}

/// The pieces of `s` between line breaks (the last piece is empty when `s` ends
/// with a line break).
pub open spec fn lines(s: Seq<char>) -> Seq<Seq<char>> {
    lines_from(seq![], s)
}

/// There is always at least one line, possibly empty.
pub proof fn lemma_lines_nonempty(cur: Seq<char>, rest: Seq<char>)
    ensures
        lines_from(cur, rest).len() >= 1,
    decreases rest.len(),
{
    if rest.len() > 0 {
        if rest[0] == '\n' {
            lemma_lines_nonempty(seq![], rest.drop_first());
        } else {
            lemma_lines_nonempty(cur.push(rest[0]), rest.drop_first());
        }
    }
}

/// Splits `s` at its line breaks.
pub fn split_lines(s: &Vec<char>) -> (out: Vec<Vec<char>>)
    ensures
        out@.len() == lines(s@).len(),
        forall|k: int| 0 <= k < out@.len() ==> (#[trigger] out@[k])@ == lines(s@)[k],
{
    let mut out: Vec<Vec<char>> = Vec::new();
    let mut cur: Vec<char> = Vec::new();
    let mut i: usize = 0;
    let ghost done: Seq<Seq<char>> = seq![];
    assert(s@.skip(0) == s@);
    assert(done + lines_from(cur@, s@.skip(0)) == lines_from(cur@, s@.skip(0)));
    while i < s.len()
        invariant
            i <= s.len(),
            out@.len() == done.len(),
            forall|k: int| 0 <= k < out@.len() ==> (#[trigger] out@[k])@ == done[k],
            done + lines_from(cur@, s@.skip(i as int)) == lines(s@),
        decreases s.len() - i,
    {
        let c = s[i];
        assert(s@.skip(i as int).drop_first() == s@.skip(i + 1));
        if c == '\n' {
            proof {
                assert(done + seq![cur@] + lines_from(seq![], s@.skip(i + 1)) == lines(s@));
                done = done.push(cur@);
            }
            out.push(cur);
            cur = Vec::new();
        } else {
            cur.push(c);
        }
        i = i + 1;
    }
    proof {
        done = done.push(cur@);
    }
    out.push(cur);
    assert(done == lines(s@));
    out
}

/// A run of characters with no whitespace extends the word in progress.
pub proof fn lemma_words_from_word(cur: Seq<char>, x: Seq<char>, t: Seq<char>)
    requires
        forall|i: int| 0 <= i < x.len() ==> !is_space(#[trigger] x[i]),
    ensures
        words_from(cur, x + t) == words_from(cur + x, t),
    decreases x.len(),
{
    if x.len() > 0 {
        let y = x.drop_first();
        assert((x + t).drop_first() == y + t);
        assert((x + t)[0] == x[0]);
        assert forall|i: int| 0 <= i < y.len() implies !is_space(#[trigger] y[i]) by {
            assert(y[i] == x[i + 1]);
        }
        lemma_words_from_word(cur.push(x[0]), y, t);
        assert(cur.push(x[0]) + y == cur + x);
    } else {
        assert(x + t == t);
        assert(cur + x == cur);
    }
}

/// A word without whitespace followed by a space and more text is the first
/// word of the whole.
pub proof fn lemma_words_leading_word(x: Seq<char>, rest: Seq<char>)
    requires
        x.len() > 0,
        forall|i: int| 0 <= i < x.len() ==> !is_space(#[trigger] x[i]),
    ensures
        words(x + (seq![' '] + rest)) == seq![x] + words(rest),
{
    lemma_words_from_word(seq![], x, seq![' '] + rest);
    assert(Seq::<char>::empty() + x == x);
    let t = seq![' '] + rest;
    assert(t[0] == ' ');
    assert(t.drop_first() == rest);
    assert(is_space(' '));
}

} // verus!
