//! Top-N processes by resident memory, sourced via sysinfo.

use vstd::prelude::*;

use sysinfo::System;

use crate::sort::{lemma_sort_descending, lemma_sort_len, rank_key, sort_by_rank_desc, sort_desc, views, Ranked};
use crate::text::push_char;

verus! {

/// Number of processes shown in the leaderboard.
pub const TOP_N: usize = 5;

/// Longest name, in UTF-8 bytes, that is shown whole.
pub const NAME_MAX_BYTES: usize = 14;

/// Bytes of a name kept when it is shortened.
pub const NAME_KEPT_BYTES: usize = 13;

/// `sysinfo::System`, the handle on the machine's process table, held opaque.
#[verifier::external_type_specification]
#[verifier::external_body]
pub struct ExSystem(sysinfo::System);

/// One process as the system reports it.
pub struct ProcessSample {
    /// The process name, lossily converted to UTF-8.
    pub name: String,
    /// Resident Set Size (RSS) in bytes
    pub memory: u64,
    /// Whether the entry is a thread rather than a process.
    pub is_thread: bool,
}

/// A process sample as plain values.
pub struct ProcessSampleView {
    pub name: Seq<char>,
    pub memory: u64,
    pub is_thread: bool,
}

impl View for ProcessSample {
    type V = ProcessSampleView;

    open spec fn view(&self) -> ProcessSampleView {
        ProcessSampleView { name: self.name@, memory: self.memory, is_thread: self.is_thread }
    }
}

impl Ranked for ProcessSample {
    open spec fn rank_of(v: ProcessSampleView) -> int {
        v.memory as int
    }

    fn rank(&self) -> (r: i128) {
        self.memory as i128
    }
}

/// Memory info for a single process.
#[derive(Debug, Clone)]
pub struct ProcessInfo {
    /// Truncated display name
    pub name: String,
    /// Resident Set Size (RSS) in bytes
    pub memory: u64,
}

/// A leaderboard entry as plain values.
pub struct ProcessInfoView {
    pub name: Seq<char>,
    pub memory: u64,
}

impl View for ProcessInfo {
    type V = ProcessInfoView;

    open spec fn view(&self) -> ProcessInfoView {
        ProcessInfoView { name: self.name@, memory: self.memory }
    }
}

/// The samples that are processes rather than threads, in order.
pub open spec fn processes_only(s: Seq<ProcessSampleView>) -> Seq<ProcessSampleView>
    decreases s.len(),
{
    if s.len() == 0 {
        seq![]
    } else if s.last().is_thread {
        processes_only(s.drop_last())
    } else {
        processes_only(s.drop_last()).push(s.last())
    }
}

/// At most the first `n` elements of `s`.
pub open spec fn first_n<V>(s: Seq<V>, n: nat) -> Seq<V> {
    if s.len() <= n { s } else { s.take(n as int) }
}

/// The UTF-8 width of `c` in bytes.
pub open spec fn utf8_width(c: char) -> nat {
    vstd::utf8::encode_scalar(c as u32).len()
}

/// How many leading characters of `s` take exactly `n` bytes in UTF-8, if any do
/// (that is, whether byte `n` is a character boundary).
pub open spec fn chars_in_bytes(s: Seq<char>, n: int) -> Option<nat>
    decreases s.len(),
{
    if n == 0 {
        Some(0)
    } else if n < 0 || s.len() == 0 {
        None
    } else {
        match chars_in_bytes(s.drop_first(), n - utf8_width(s[0])) {
            Some(k) => Some(k + 1),
            None => None,
        }
    }
}

/// The name shown for a process: names longer than 14 bytes are cut to their
/// first 13 bytes followed by `…`. `None` when byte 13 falls inside a
/// character, where cutting the name is impossible.
pub open spec fn shown_name(raw: Seq<char>) -> Option<Seq<char>> {
    if vstd::utf8::encode_utf8(raw).len() > NAME_MAX_BYTES {
        match chars_in_bytes(raw, NAME_KEPT_BYTES as int) {
            Some(k) => Some(raw.take(k as int).push('…')),
            None => None,
        }
    } else {
        Some(raw)
    }
}

/// The leaderboard for `samples`: processes (not threads) by memory, largest
/// first and in sample order among equals, at most `TOP_N` of them, with their
/// shown names. `None` when one of their names cannot be cut.
pub open spec fn leaderboard(samples: Seq<ProcessSampleView>) -> Option<Seq<ProcessInfoView>> {
    let top = first_n(sort_by_rank_desc(processes_only(samples), rank_key::<ProcessSample>()), TOP_N as nat);
    if forall|i: int| 0 <= i < top.len() ==> (#[trigger] shown_name(top[i].name)) is Some {
        Some(top.map_values(|p: ProcessSampleView| ProcessInfoView { name: shown_name(p.name)->0, memory: p.memory }))
    } else {
        None
    }
}

fn width_of(c: char) -> (w: usize)
    ensures
        w == utf8_width(c),
{
    proof {
        vstd::utf8::char_is_scalar(c);
    }
    let u = c as u32;
    if u <= 0x7F {
        1
    } else if u <= 0x7FF {
        2
    } else if u <= 0xFFFF {
        3
    } else {
        4
    }
}

proof fn lemma_encode_concat(a: Seq<char>, b: Seq<char>)
    ensures
        vstd::utf8::encode_utf8(a + b) == vstd::utf8::encode_utf8(a) + vstd::utf8::encode_utf8(b),
    decreases a.len(),
{
    if a.len() == 0 {
        assert(a + b == b);
    } else {
        lemma_encode_concat(a.drop_first(), b);
        assert((a + b).drop_first() == a.drop_first() + b);
        assert((a + b)[0] == a[0]);
    }
}

proof fn lemma_encode_push(a: Seq<char>, c: char)
    ensures
        vstd::utf8::encode_utf8(a.push(c)).len() == vstd::utf8::encode_utf8(a).len() + utf8_width(c),
{
    lemma_encode_concat(a, seq![c]);
    assert(a + seq![c] == a.push(c));
    assert(seq![c].drop_first() == Seq::<char>::empty());
    assert(vstd::utf8::encode_utf8(seq![c]) == vstd::utf8::encode_scalar(c as u32)
        + vstd::utf8::encode_utf8(Seq::<char>::empty()));
    assert(vstd::utf8::encode_scalar(c as u32) + Seq::<u8>::empty() == vstd::utf8::encode_scalar(c as u32));
}

/// The shown name for `raw`, as `shown_name` gives it.
fn shorten_name(raw: &String) -> (r: Option<String>)
    ensures
        match r {
            Some(s) => shown_name(raw@) == Some(s@),
            None => shown_name(raw@) is None,
        },
{
    let chars = crate::text::chars_of(raw.as_str());
    let mut total: usize = 0;
    let mut i: usize = 0;
    assert(chars@.take(0) == Seq::<char>::empty());
    while i < chars.len() && total <= NAME_MAX_BYTES
        invariant
            i <= chars.len(),
            chars@ == raw@,
            total <= NAME_MAX_BYTES + 4,
            total == vstd::utf8::encode_utf8(chars@.take(i as int)).len(),
        decreases chars.len() - i,
    {
        let w = width_of(chars[i]);
        proof {
            lemma_encode_push(chars@.take(i as int), chars@[i as int]);
            assert(chars@.take(i + 1) == chars@.take(i as int).push(chars@[i as int]));
        }
        total = total + w;
        i = i + 1;
    }
    proof {
        lemma_encode_concat(chars@.take(i as int), chars@.skip(i as int));
        assert(chars@.take(i as int) + chars@.skip(i as int) == chars@);
    }
    if total <= NAME_MAX_BYTES {
        assert(chars@.take(i as int) == chars@);
        return Some(raw.clone());
    }
    let mut used: usize = 0;
    let mut i: usize = 0;
    assert(chars@.skip(0) == chars@);
    while used < NAME_KEPT_BYTES && i < chars.len()
        invariant
            i <= chars.len(),
            used <= NAME_KEPT_BYTES,
            chars@ == raw@,
            vstd::utf8::encode_utf8(raw@).len() > NAME_MAX_BYTES,
            chars_in_bytes(raw@, NAME_KEPT_BYTES as int) == match chars_in_bytes(chars@.skip(i as int), NAME_KEPT_BYTES - used) {
                Some(k) => Some((k + i) as nat),
                None => None::<nat>,
            },
        decreases chars.len() - i,
    {
        let w = width_of(chars[i]);
        let ghost t = chars@.skip(i as int);
        assert(t.len() > 0 && t[0] == chars@[i as int]);
        assert(t.drop_first() == chars@.skip(i + 1));
        if w > NAME_KEPT_BYTES - used {
            assert(chars_in_bytes(chars@.skip(i + 1), NAME_KEPT_BYTES - used - w) is None);
            assert(chars_in_bytes(t, NAME_KEPT_BYTES - used) is None);
            return None;
        }
        used = used + w;
        i = i + 1;
    }
    if used < NAME_KEPT_BYTES {
        assert(chars@.skip(i as int).len() == 0);
        return None;
    }
    assert(chars_in_bytes(chars@.skip(i as int), 0) == Some(0nat));
    let mut s = String::new();
    let mut k: usize = 0;
    while k < i
        invariant
            k <= i <= chars.len(),
            s@ == chars@.take(k as int),
        decreases i - k,
    {
        push_char(&mut s, chars[k]);
        k = k + 1;
        assert(chars@.take(k as int) == chars@.take(k - 1).push(chars@[k - 1]));
    }
    push_char(&mut s, '…');
    Some(s)
}

/// Ranks `samples` into the leaderboard: threads dropped, the rest ordered
/// by memory (largest first), the first `TOP_N` kept, long names cut.
pub fn top_processes(samples: Vec<ProcessSample>) -> (r: Option<Vec<ProcessInfo>>)
    ensures
        match r {
            Some(v) => leaderboard(views(samples@)) == Some(views(v@)),
            None => leaderboard(views(samples@)) is None,
        },
{
    let ghost sv = views(samples@);
    let mut kept: Vec<ProcessSample> = Vec::new();
    let mut input = samples;
    let ghost mut i: int = 0;
    assert(sv.take(0) == Seq::<ProcessSampleView>::empty());
    while input.len() > 0
        invariant
            0 <= i <= sv.len(),
            sv.len() == i + input@.len(),
            forall|j: int| 0 <= j < input@.len() ==> (#[trigger] input@[j])@ == sv[i + j],
            views(kept@) == processes_only(sv.take(i)),
        decreases input.len(),
    {
        let p = input.remove(0);
        proof {
            assert(p@ == sv[i]);
            assert(sv.take(i + 1).drop_last() == sv.take(i));
            assert(sv.take(i + 1).last() == sv[i]);
            i = i + 1;
        }
        if !p.is_thread {
            let ghost before = kept@;
            kept.push(p);
            assert(views(kept@) == views(before).push(p@));
        }
    }
    assert(sv.take(i) == sv);
    let sorted = sort_desc(kept);
    let ghost top = first_n(views(sorted@), TOP_N as nat);
    let n = if sorted.len() < TOP_N { sorted.len() } else { TOP_N };
    let mut out: Vec<ProcessInfo> = Vec::new();
    let mut k: usize = 0;
    while k < n
        invariant
            k <= n,
            n == top.len(),
            n <= sorted@.len(),
            top == first_n(views(sorted@), TOP_N as nat),
            sv == views(samples@),
            views(sorted@) == sort_by_rank_desc(processes_only(sv), rank_key::<ProcessSample>()),
            out@.len() == k,
            forall|j: int| 0 <= j < k ==> (#[trigger] shown_name(top[j].name)) == Some(out@[j]@.name),
            forall|j: int| 0 <= j < k ==> out@[j]@.memory == top[j].memory,
        decreases n - k,
    {
        assert(top[k as int] == sorted@[k as int]@);
        match shorten_name(&sorted[k].name) {
            Some(name) => {
                out.push(ProcessInfo { name, memory: sorted[k].memory });
            },
            None => {
                assert(shown_name(top[k as int].name) is None);
                proof {
                    let full = first_n(sort_by_rank_desc(processes_only(views(samples@)), rank_key::<ProcessSample>()), TOP_N as nat);
                    assert(full == top);
                    assert(!(forall|j: int| 0 <= j < full.len() ==> (#[trigger] shown_name(full[j].name)) is Some));
                }
                return None;
            },
        }
        k = k + 1;
    }
    let ghost info = top.map_values(|p: ProcessSampleView| ProcessInfoView { name: shown_name(p.name)->0, memory: p.memory });
    assert(views(out@) == info);
    Some(out)
}

/// The leaderboard holds `TOP_N` processes, or all of them when there are
/// fewer, ordered by memory with the largest first.
pub proof fn lemma_leaderboard_shape(samples: Seq<ProcessSampleView>)
    ensures
        leaderboard(samples) matches Some(v) ==> {
            &&& v.len() == if processes_only(samples).len() < TOP_N { processes_only(samples).len() } else { TOP_N as nat }
            &&& forall|i: int, j: int| 0 <= i < j < v.len() ==> v[i].memory >= v[j].memory
        },
{
    let key = rank_key::<ProcessSample>();
    let sorted = sort_by_rank_desc(processes_only(samples), key);
    lemma_sort_len(processes_only(samples), key);
    lemma_sort_descending(processes_only(samples), key);
    let top = first_n(sorted, TOP_N as nat);
    if let Some(v) = leaderboard(samples) {
        assert forall|i: int, j: int| 0 <= i < j < v.len() implies v[i].memory >= v[j].memory by {
            assert(v[i].memory == top[i].memory && v[j].memory == top[j].memory);
            assert(top[i] == sorted[i] && top[j] == sorted[j]);
            assert(key(sorted[i]) >= key(sorted[j]));
        }
    }
}

/// `System::new_with_specifics` with a refresh kind that covers process memory only.
#[verifier::external_body]
fn new_process_system() -> System {
    System::new_with_specifics(
        sysinfo::RefreshKind::nothing().with_processes(
            sysinfo::ProcessRefreshKind::nothing().with_memory(),
        ),
    )
}

/// `System::refresh_processes_specifics` on all processes, removing the dead
/// ones, refreshing memory only. The count of updated processes it returns is
/// dropped. What the system holds afterwards depends on the machine: nothing
/// is stated of it.
#[verifier::external_body]
fn refresh_process_memory(sys: &mut System) {
    sys.refresh_processes_specifics(
        sysinfo::ProcessesToUpdate::All,
        true,
        sysinfo::ProcessRefreshKind::nothing().with_memory(),
    );
}

/// The entries of `System::processes`, each with its name
/// (`to_string_lossy`), `memory` and whether `thread_kind` is `Some`, in the
/// order in which the map is walked. They depend on the machine and the
/// walk order on the map: nothing is stated of them.
#[verifier::external_body]
fn process_samples(sys: &System) -> Vec<ProcessSample> {
    sys.processes().values().map(|p| ProcessSample {
        name: p.name().to_string_lossy().into_owned(),
        memory: p.memory(),
        is_thread: p.thread_kind().is_some(),
    }).collect()
}

/// A dedicated lightweight System instance for process scanning.
/// Kept separate so we only refresh what we need.
pub struct ProcessScanner {
    sys: System,
}

impl ProcessScanner {
    /// A scanner whose system handle refreshes process memory only.
    pub fn new() -> Self {
        ProcessScanner { sys: new_process_system() }
    }

    /// Refreshes and returns the top `TOP_N` processes sorted by RSS
    /// descending: the leaderboard of what the system reported. `None` when
    /// the name of one of them cannot be cut at its 13th byte.
    pub fn top(&mut self) -> (r: Option<Vec<ProcessInfo>>)
        ensures
            exists|samples: Seq<ProcessSampleView>|
                match r {
                    Some(v) => leaderboard(samples) == Some(views(v@)),
                    None => leaderboard(samples) is None,
                },
    {
        refresh_process_memory(&mut self.sys);
        let samples = process_samples(&self.sys);
        let ghost sv = views(samples@);
        let r = top_processes(samples);
        assert(match r {
            Some(v) => leaderboard(sv) == Some(views(v@)),
            None => leaderboard(sv) is None,
        });
        r
    }
}

} // verus!
