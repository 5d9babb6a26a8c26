//! ZRAM statistics as the kernel reports them under `/sys/block/zram0/`.

use vstd::prelude::*;

use crate::num::{parse_u64, parse_u64_spec, IntErrorKind};
use crate::fmt::decimal;
use crate::num::lemma_parse_u64_decimal;
use crate::text::{chars_of, is_space, lemma_words_leading_word, split_words, trim, trimmed, words};

verus! {

/// Overall health classification of the ZRAM device.
#[derive(Debug, Clone, Copy, PartialEq, Eq, Structural)]
pub enum Health {
    Normal,
    Pressure,
    Critical,
}

impl Health {
    /// The label shown for this health level.
    pub fn label(&self) -> (s: &'static str)
        ensures
            s@ == self.spec_label(),
    {
        match self {
            Health::Normal => "NORMAL",
            Health::Pressure => "PRESSURE",
            Health::Critical => "CRITICAL",
        }
    }

    /// The label for this level, as text.
    pub open spec fn spec_label(&self) -> Seq<char> {
        match self {
            Health::Normal => "NORMAL"@,
            Health::Pressure => "PRESSURE"@,
            Health::Critical => "CRITICAL"@,
        }
    }
}

/// The leading fields of `/sys/block/zram0/mm_stat`.
/// Format: orig_data_size compr_data_size mem_used_total mem_limit mem_used_max ...
#[derive(Debug, Clone, Copy, PartialEq, Eq, Structural)]
pub struct MmStat {
    pub orig_data_size: u64,
    pub compr_data_size: u64,
    pub mem_used_total: u64,
}

/// Why a statistics line could not be read.
#[derive(Debug, Clone, Copy, PartialEq, Eq, Structural)]
pub enum StatParseError {
    /// The line has fewer than three whitespace-separated fields.
    TooFewFields,
    /// One of the first three fields is not a `u64`.
    Int(IntErrorKind),
}

impl StatParseError {
    /// The message of the error, as the program reports it.
    pub fn description(&self) -> (s: &'static str)
        ensures
            s@ == self.spec_description(),
    {
        match self {
            StatParseError::TooFewFields => "mm_stat has fewer than 3 fields",
            StatParseError::Int(k) => k.description(),
        }
    }

    /// The message of the error, as text.
    pub open spec fn spec_description(&self) -> Seq<char> {
        match self {
            StatParseError::TooFewFields => "mm_stat has fewer than 3 fields"@,
            StatParseError::Int(k) => k.spec_description(),
        }
    }
}

/// What reading an `mm_stat` line gives: its first three whitespace-separated
/// fields as `u64`s, the first field that fails deciding the error.
pub open spec fn mm_stat_spec(line: Seq<char>) -> Result<MmStat, StatParseError> {
    let f = words(line);
    if f.len() < 3 {
        Err(StatParseError::TooFewFields)
    } else {
        match parse_u64_spec(f[0]) {
            Err(e) => Err(StatParseError::Int(e)),
            Ok(a) => match parse_u64_spec(f[1]) {
                Err(e) => Err(StatParseError::Int(e)),
                Ok(b) => match parse_u64_spec(f[2]) {
                    Err(e) => Err(StatParseError::Int(e)),
                    Ok(c) => Ok(MmStat { orig_data_size: a, compr_data_size: b, mem_used_total: c }),
                },
            },
        }
    }
}

/// Parses the `mm_stat` line (modern kernels consolidate stats here).
pub fn parse_mm_stat(line: &str) -> (r: Result<MmStat, StatParseError>)
    ensures
        r == mm_stat_spec(line@),
{
    let chars = chars_of(line);
    let fields = split_words(&chars);
    if fields.len() < 3 {
        return Err(StatParseError::TooFewFields);
    }
    let a = match parse_u64(&fields[0]) {
        Ok(v) => v,
        Err(e) => return Err(StatParseError::Int(e)),
    };
    let b = match parse_u64(&fields[1]) {
        Ok(v) => v,
        Err(e) => return Err(StatParseError::Int(e)),
    };
    let c = match parse_u64(&fields[2]) {
        Ok(v) => v,
        Err(e) => return Err(StatParseError::Int(e)),
    };
    Ok(MmStat { orig_data_size: a, compr_data_size: b, mem_used_total: c })
}

/// Reads the content of a single-value sysfs file: surrounding whitespace
/// is dropped and the rest must be a `u64`.
pub fn parse_stat_value(raw: &str) -> (r: Result<u64, IntErrorKind>)
    ensures
        r == parse_u64_spec(trim(raw@)),
{
    let chars = chars_of(raw);
    let t = trimmed(&chars);
    parse_u64(&t)
}

proof fn lemma_decimal_has_no_space(n: nat)
    ensures
        decimal(n).len() > 0,
        forall|i: int| 0 <= i < decimal(n).len() ==> !is_space(#[trigger] decimal(n)[i]),
{
    crate::num::lemma_decimal_digits(n);
    assert forall|i: int| 0 <= i < decimal(n).len() implies !is_space(#[trigger] decimal(n)[i]) by {
        assert(crate::num::is_digit(decimal(n)[i]));
    }
}

/// Three numbers written in decimal, separated by spaces and followed by a
/// space and anything at all, read back as those three numbers.
pub proof fn lemma_mm_stat_reads_back(a: u64, b: u64, c: u64, rest: Seq<char>)
    ensures
        mm_stat_spec(
            decimal(a as nat) + (seq![' '] + (decimal(b as nat) + (seq![' '] + (decimal(c as nat) + (seq![' '] + rest))))),
        ) == Ok::<MmStat, StatParseError>(MmStat { orig_data_size: a, compr_data_size: b, mem_used_total: c }),
{
    let da = decimal(a as nat);
    let db = decimal(b as nat);
    let dc = decimal(c as nat);
    lemma_decimal_has_no_space(a as nat);
    lemma_decimal_has_no_space(b as nat);
    lemma_decimal_has_no_space(c as nat);
    let r2 = dc + (seq![' '] + rest);
    let r1 = db + (seq![' '] + r2);
    lemma_words_leading_word(dc, rest);
    lemma_words_leading_word(db, r2);
    lemma_words_leading_word(da, r1);
    let w = words(da + (seq![' '] + r1));
    assert(words(r2) == seq![dc] + words(rest));
    assert(words(r1) == seq![db] + words(r2));
    assert(w == seq![da] + words(r1));
    assert(w[0] == da);
    assert(w[1] == words(r1)[0]);
    assert(w[1] == db);
    assert(w[2] == words(r1)[1]);
    assert(words(r1)[1] == words(r2)[0]);
    assert(w[2] == dc);
    lemma_parse_u64_decimal(a);
    lemma_parse_u64_decimal(b);
    lemma_parse_u64_decimal(c);
}

} // verus!
