//! Active swap devices, as listed in `/proc/swaps`.

use vstd::prelude::*;

use crate::num::{parse_i32, parse_i32_spec, parse_u64, parse_u64_spec};
use crate::sort::{lemma_sort_descending, lemma_sort_len, lemma_sort_stable, of_rank, rank_key, sort_by_rank_desc, sort_desc, views, Ranked};
use crate::text::{chars_of, lemma_lines_nonempty, lines, split_lines, split_words, string_from, words};

verus! {

/// A single active swap device or file.
#[derive(Debug, Clone)]
pub struct SwapEntry {
    /// Full path, e.g. "/swapfile" or "/dev/zram0"
    pub name: String,
    /// Short display name (basename)
    pub display_name: String,
    /// "file" or "partition"
    pub kind: String,
    /// Total size in bytes
    pub size: u64,
    /// Currently used bytes
    pub used: u64,
    /// Kernel priority (higher = preferred)
    pub priority: i32,
}

/// A swap entry as plain values.
pub struct SwapEntryView {
    pub name: Seq<char>,
    pub display_name: Seq<char>,
    pub kind: Seq<char>,
    pub size: u64,
    pub used: u64,
    pub priority: i32,
}

impl View for SwapEntry {
    type V = SwapEntryView;

    open spec fn view(&self) -> SwapEntryView {
        SwapEntryView {
            name: self.name@,
            display_name: self.display_name@,
            kind: self.kind@,
            size: self.size,
            used: self.used,
            priority: self.priority,
        }
    }
}

impl Ranked for SwapEntry {
    open spec fn rank_of(v: SwapEntryView) -> int {
        v.priority as int
    }

    fn rank(&self) -> (r: i128) {
        self.priority as i128
    }
}

/// Summary totals across all swap entries.
#[derive(Debug, Clone, Copy, Default, PartialEq, Eq, Structural)]
pub struct SwapTotals {
    pub total_size: u64,
    pub total_used: u64,
}

/// The part of a path after its last `/` (the whole path when it has none).
pub open spec fn base_name(s: Seq<char>) -> Seq<char>
    decreases s.len(),
{
    if s.len() == 0 {
        s
    } else if s.last() == '/' {
        seq![]
    } else {
        base_name(s.drop_last()).push(s.last())
    }
}

/// A size column, in KiB: its value, or 0 when it is not a `u64`.
pub open spec fn kib_column(c: Seq<char>) -> nat {
    match parse_u64_spec(c) {
        Ok(v) => v as nat,
        Err(_) => 0,
    }
}

/// A priority column: its value, or 0 when it is not an `i32`.
pub open spec fn priority_column(c: Seq<char>) -> i32 {
    match parse_i32_spec(c) {
        Ok(v) => v,
        Err(_) => 0,
    }
}

/// Both size columns of a row still fit in a `u64` once turned into bytes.
pub open spec fn row_fits(cols: Seq<Seq<char>>) -> bool {
    cols.len() < 5 || (kib_column(cols[2]) * 1024 <= u64::MAX && kib_column(cols[3]) * 1024 <= u64::MAX)
}

/// The entry that a row with the columns `cols` (at least five) describes.
pub open spec fn entry_of(cols: Seq<Seq<char>>) -> SwapEntryView {
    SwapEntryView {
        name: cols[0],
        display_name: base_name(cols[0]),
        kind: cols[1],
        size: (kib_column(cols[2]) * 1024) as u64,
        used: (kib_column(cols[3]) * 1024) as u64,
        priority: priority_column(cols[4]),
    }
}

/// The entries of the rows `rows`, in order; rows with fewer than five
/// columns are skipped.
pub open spec fn entries_of_rows(rows: Seq<Seq<char>>) -> Seq<SwapEntryView>
    decreases rows.len(),
{
    if rows.len() == 0 {
        seq![]
    } else if words(rows.last()).len() >= 5 {
        entries_of_rows(rows.drop_last()).push(entry_of(words(rows.last())))
    } else {
        entries_of_rows(rows.drop_last())
    }
}

/// The data rows of a `/proc/swaps` text: every line after the header.
pub open spec fn data_rows(raw: Seq<char>) -> Seq<Seq<char>> {
    lines(raw).skip(1)
}

/// Every data row of `raw` has sizes that fit in a `u64` as bytes.
pub open spec fn sizes_fit(raw: Seq<char>) -> bool {
    forall|i: int| 0 <= i < data_rows(raw).len() ==> row_fits(words(#[trigger] data_rows(raw)[i]))
}

/// The entries that a `/proc/swaps` text lists, highest priority first;
/// entries of equal priority keep the order of the text.
pub open spec fn swap_entries(raw: Seq<char>) -> Seq<SwapEntryView> {
    sort_by_rank_desc(entries_of_rows(data_rows(raw)), rank_key::<SwapEntry>())
}

fn base_name_exec(s: &Vec<char>) -> (b: Vec<char>)
    ensures
        b@ == base_name(s@),
{
    let mut k: usize = s.len();
    assert(s@.take(s.len() as int) == s@);
    assert(s@ + s@.skip(s.len() as int) == s@);
    while k > 0 && s[k - 1] != '/'
        invariant
            k <= s.len(),
            base_name(s@) == base_name(s@.take(k as int)) + s@.skip(k as int),
        decreases k,
    {
        proof {
            let t = s@.take(k as int);
            assert(t.drop_last() == s@.take(k - 1));
            assert(t.last() == s@[k - 1]);
            assert(s@.skip(k - 1) == seq![s@[k - 1]] + s@.skip(k as int));
        }
        k = k - 1;
    }
    proof {
        if k > 0 {
            assert(s@.take(k as int).last() == '/');
        } else {
            assert(s@.take(0) == Seq::<char>::empty());
        }
    }
    let mut b: Vec<char> = Vec::new();
    let mut i: usize = k;
    while i < s.len()
        invariant
            k <= i <= s.len(),
            b@ == s@.subrange(k as int, i as int),
        decreases s.len() - i,
    {
        b.push(s[i]);
        i = i + 1;
        assert(s@.subrange(k as int, i as int) == s@.subrange(k as int, i - 1).push(s@[i - 1]));
    }
    assert(s@.subrange(k as int, s.len() as int) == s@.skip(k as int));
    b
}

fn kib_to_bytes(c: &Vec<char>) -> (bytes: u64)
    requires
        kib_column(c@) * 1024 <= u64::MAX,
    ensures
        bytes == kib_column(c@) * 1024,
{
    let kib = match parse_u64(c) {
        Ok(v) => v,
        Err(_) => 0,
    };
    kib * 1024
}

fn kib_fits(c: &Vec<char>) -> (b: bool)
    ensures
        b == (kib_column(c@) * 1024 <= u64::MAX),
{
    match parse_u64(c) {
        Ok(v) => v <= u64::MAX / 1024,
        Err(_) => true,
    }
}

fn entry_from_columns(cols: &Vec<Vec<char>>, Ghost(w): Ghost<Seq<Seq<char>>>) -> (e: SwapEntry)
    requires
        cols@.len() == w.len(),
        w.len() >= 5,
        forall|k: int| 0 <= k < cols@.len() ==> (#[trigger] cols@[k])@ == w[k],
        row_fits(w),
    ensures
        e@ == entry_of(w),
        e.priority == match parse_i32_spec(w[4]) {
            Ok(v) => v,
            Err(_) => 0i32,
        },
{
    assert(cols@[0]@ == w[0] && cols@[1]@ == w[1] && cols@[2]@ == w[2]);
    assert(cols@[3]@ == w[3] && cols@[4]@ == w[4]);
    let name = string_from(&cols[0]);
    let display_name = string_from(&base_name_exec(&cols[0]));
    let kind = string_from(&cols[1]);
    let size = kib_to_bytes(&cols[2]);
    let used = kib_to_bytes(&cols[3]);
    let priority = match parse_i32(&cols[4]) {
        Ok(v) => v,
        Err(_) => 0,
    };
    SwapEntry { name, display_name, kind, size, used, priority }
}

/// The entries of the data rows of `raw`, in the order of the text.
fn parse_rows(raw: &str) -> (out: Vec<SwapEntry>)
    requires
        sizes_fit(raw@),
    ensures
        views(out@) == entries_of_rows(data_rows(raw@)),
{
    let chars = chars_of(raw);
    let ls = split_lines(&chars);
    let ghost all = lines(raw@);
    let ghost rows = data_rows(raw@);
    let mut out: Vec<SwapEntry> = Vec::new();
    proof {
        lemma_lines_nonempty(seq![], raw@);
    }
    let mut i: usize = 1;
    assert(rows.take(0) == Seq::<Seq<char>>::empty());
    while i < ls.len()
        invariant
            1 <= i <= ls.len(),
            ls@.len() == all.len(),
            all == lines(raw@),
            rows == all.skip(1),
            sizes_fit(raw@),
            forall|k: int| 0 <= k < ls@.len() ==> (#[trigger] ls@[k])@ == all[k],
            views(out@) == entries_of_rows(rows.take(i - 1)),
        decreases ls.len() - i,
    {
        let cols = split_words(&ls[i]);
        let ghost line = all[i as int];
        proof {
            assert(rows[i - 1] == line);
            assert(ls@[i as int]@ == line);
            assert(rows.take(i as int).drop_last() == rows.take(i - 1));
            assert(rows.take(i as int).last() == line);
        }
        if cols.len() >= 5 {
            proof {
                assert(row_fits(words(data_rows(raw@)[i - 1])));
            }
            let e = entry_from_columns(&cols, Ghost(words(line)));
            let ghost before = out@;
            out.push(e);
            assert(views(out@) == views(before).push(e@));
        }
        i = i + 1;
    }
    assert(rows.take(ls.len() - 1) == rows);
    out
}

/// Parses the text of `/proc/swaps` and returns all active swap entries,
/// highest priority first.
/// Format (tab/space separated, sizes in KiB):
///   Filename  Type  Size  Used  Priority
pub fn parse_swaps(raw: &str) -> (entries: Vec<SwapEntry>)
    requires
        sizes_fit(raw@),
    ensures
        views(entries@) == swap_entries(raw@),
{
    let rows = parse_rows(raw);
    sort_desc(rows)
}

/// Whether every size in `raw` fits in a `u64` once turned into bytes.
pub fn swap_sizes_fit(raw: &str) -> (fits: bool)
    ensures
        fits == sizes_fit(raw@),
{
    let chars = chars_of(raw);
    let ls = split_lines(&chars);
    let ghost all = lines(raw@);
    let ghost rows = data_rows(raw@);
    proof {
        lemma_lines_nonempty(seq![], raw@);
    }
    let mut i: usize = 1;
    while i < ls.len()
        invariant
            1 <= i <= ls.len(),
            ls@.len() == all.len(),
            all == lines(raw@),
            rows == all.skip(1),
            forall|k: int| 0 <= k < ls@.len() ==> (#[trigger] ls@[k])@ == all[k],
            forall|j: int| 0 <= j < i - 1 ==> row_fits(words(#[trigger] rows[j])),
        decreases ls.len() - i,
    {
        let cols = split_words(&ls[i]);
        assert(rows[i - 1] == all[i as int]);
        if cols.len() >= 5 {
            assert(cols@[2]@ == words(rows[i - 1])[2]);
            assert(cols@[3]@ == words(rows[i - 1])[3]);
            if !kib_fits(&cols[2]) || !kib_fits(&cols[3]) {
                assert(!row_fits(words(data_rows(raw@)[i - 1])));
                return false;
            }
        }
        assert(row_fits(words(data_rows(raw@)[i - 1])));
        i = i + 1;
    }
    assert forall|j: int| 0 <= j < data_rows(raw@).len() implies row_fits(words(#[trigger] data_rows(raw@)[j])) by {
        assert(rows[j] == data_rows(raw@)[j]);
    }
    true
}

/// Parses `/proc/swaps` as `parse_swaps` does, or gives `None` when a size
/// does not fit in a `u64` once turned into bytes.
pub fn parse_swaps_checked(raw: &str) -> (entries: Option<Vec<SwapEntry>>)
    ensures
        sizes_fit(raw@) <==> entries is Some,
        entries matches Some(v) ==> views(v@) == swap_entries(raw@),
{
    if swap_sizes_fit(raw) {
        Some(parse_swaps(raw))
    } else {
        None
    }
}


/// The entries come highest priority first; for every priority, the entries
/// of that priority are exactly those of the text, in the order of the text.
pub proof fn lemma_swap_entries_ordered(raw: Seq<char>, p: int)
    ensures
        swap_entries(raw).len() == entries_of_rows(data_rows(raw)).len(),
        forall|i: int, j: int| 0 <= i < j < swap_entries(raw).len()
            ==> swap_entries(raw)[i].priority >= swap_entries(raw)[j].priority,
        of_rank(swap_entries(raw), rank_key::<SwapEntry>(), p)
            == of_rank(entries_of_rows(data_rows(raw)), rank_key::<SwapEntry>(), p),
{
    let key = rank_key::<SwapEntry>();
    let rows = entries_of_rows(data_rows(raw));
    lemma_sort_len(rows, key);
    lemma_sort_descending(rows, key);
    lemma_sort_stable(rows, key, p);
    assert forall|i: int, j: int| 0 <= i < j < swap_entries(raw).len()
        implies swap_entries(raw)[i].priority >= swap_entries(raw)[j].priority by {
        assert(key(swap_entries(raw)[i]) >= key(swap_entries(raw)[j]));
    }
}

/// A row's priority is the `i32` that its fifth column reads as, negative
/// values included, and 0 only when that column is not an `i32`.
pub proof fn lemma_entry_priority(cols: Seq<Seq<char>>)
    requires
        cols.len() >= 5,
    ensures
        parse_i32_spec(cols[4]) matches Ok(v) ==> entry_of(cols).priority == v,
        parse_i32_spec(cols[4]) is Err ==> entry_of(cols).priority == 0,
{
}

/// A priority written as `-n` (as the kernel assigns them) reads as `-n`.
pub proof fn lemma_negative_priority(cols: Seq<Seq<char>>, n: nat)
    requires
        cols.len() >= 5,
        1 <= n <= 0x8000_0000,
        cols[4] == seq!['-'] + crate::fmt::decimal(n),
    ensures
        entry_of(cols).priority == -n,
{
    crate::num::lemma_parse_i32_negative(n);
}

/// The sum of the sizes of `s`.
pub open spec fn total_size(s: Seq<SwapEntryView>) -> nat
    decreases s.len(),
{
    if s.len() == 0 {
        0
    } else {
        total_size(s.drop_last()) + s.last().size as nat
    }
}

/// The sum of the used bytes of `s`.
pub open spec fn total_used(s: Seq<SwapEntryView>) -> nat
    decreases s.len(),
{
    if s.len() == 0 {
        0
    } else {
        total_used(s.drop_last()) + s.last().used as nat
    }
}

proof fn lemma_totals_grow(s: Seq<SwapEntryView>, i: int)
    requires
        0 <= i <= s.len(),
    ensures
        total_size(s.take(i)) <= total_size(s),
        total_used(s.take(i)) <= total_used(s),
    decreases s.len() - i,
{
    if i < s.len() {
        lemma_totals_grow(s, i + 1);
        assert(s.take(i + 1).drop_last() == s.take(i));
    } else {
        assert(s.take(i) == s);
    }
}

/// Compute totals across all entries.
pub fn totals(entries: &[SwapEntry]) -> (t: SwapTotals)
    requires
        total_size(views(entries@)) <= u64::MAX,
        total_used(views(entries@)) <= u64::MAX,
    ensures
        t.total_size == total_size(views(entries@)),
        t.total_used == total_used(views(entries@)),
{
    let ghost vs = views(entries@);
    let mut size: u64 = 0;
    let mut used: u64 = 0;
    let mut i: usize = 0;
    assert(vs.take(0) == Seq::<SwapEntryView>::empty());
    while i < entries.len()
        invariant
            i <= entries.len(),
            vs == views(entries@),
            total_size(vs) <= u64::MAX,
            total_used(vs) <= u64::MAX,
            size == total_size(vs.take(i as int)),
            used == total_used(vs.take(i as int)),
        decreases entries.len() - i,
    {
        proof {
            assert(vs.take(i + 1).drop_last() == vs.take(i as int));
            assert(vs.take(i + 1).last() == entries@[i as int]@);
            lemma_totals_grow(vs, i + 1);
        }
        size = size + entries[i].size;
        used = used + entries[i].used;
        i = i + 1;
    }
    assert(vs.take(entries.len() as int) == vs);
    SwapTotals { total_size: size, total_used: used }
}

/// Totals as `totals` computes them, or `None` when a sum does not fit in a `u64`.
pub fn checked_totals(entries: &[SwapEntry]) -> (t: Option<SwapTotals>)
    ensures
        t is Some <==> (total_size(views(entries@)) <= u64::MAX && total_used(views(entries@)) <= u64::MAX),
        t matches Some(t) ==> t.total_size == total_size(views(entries@)) && t.total_used == total_used(views(entries@)),
{
    let ghost vs = views(entries@);
    let mut size: u64 = 0;
    let mut used: u64 = 0;
    let mut size_ok = true;
    let mut used_ok = true;
    let mut i: usize = 0;
    assert(vs.take(0) == Seq::<SwapEntryView>::empty());
    while i < entries.len()
        invariant
            i <= entries.len(),
            vs == views(entries@),
            size_ok ==> size == total_size(vs.take(i as int)),
            !size_ok ==> total_size(vs.take(i as int)) > u64::MAX,
            used_ok ==> used == total_used(vs.take(i as int)),
            !used_ok ==> total_used(vs.take(i as int)) > u64::MAX,
        decreases entries.len() - i,
    {
        proof {
            assert(vs.take(i + 1).drop_last() == vs.take(i as int));
            assert(vs.take(i + 1).last() == entries@[i as int]@);
        }
        if size_ok {
            if entries[i].size <= u64::MAX - size {
                size = size + entries[i].size;
            } else {
                size_ok = false;
            }
        }
        if used_ok {
            if entries[i].used <= u64::MAX - used {
                used = used + entries[i].used;
            } else {
                used_ok = false;
            }
        }
        i = i + 1;
    }
    assert(vs.take(entries.len() as int) == vs);
    if size_ok && used_ok {
        Some(SwapTotals { total_size: size, total_used: used })
    } else {
        None
    }
}

} // verus!
