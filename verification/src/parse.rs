//! The reminder specification parser: a tolerant tokenizer that turns a free
//! text command such as `!reminder every 2-5 days: Clean the bathroom` into a
//! validated [`ReminderSpec`] or a typed [`ParseError`].
//!
//! The grammar, scanned left to right with maximal-munch runs after an
//! optional `!reminder` keyword (found case-insensitively; text before it is
//! ignored; absent, scanning starts at the front):
//! spaces, an optional recurring marker (the literal word "every" in either
//! case, followed by optional spaces), the minimum interval digits, a
//! separator run (anything that is neither a digit nor a unit letter), the
//! optional maximum interval digits, another separator run, a run of unit
//! letters (m, h, d in either case), arbitrary trailing noise, and finally
//! the last colon that still has text after it, which starts the title (at
//! most 200 characters are taken, then trimmed).
use vstd::prelude::*;

use crate::chars::{
    CharClass,
    run_end,
    lemma_run_end,
    scan_run,
    digits_val,
    parse_digits,
    spec_trim,
    trim_chars,
    copy_range,
    string_from_chars,
    chars_vec,
};
use crate::IntervalUnit;

verus! {

/// Why a command could not be parsed into a reminder specification.
#[derive(Clone, Copy, Debug, PartialEq, Eq, Structural)]
pub enum ParseError {
    /// No interval number found where one is required.
    MissingInterval,
    /// The interval number does not fit in 64 bits.
    IntervalTooLarge,
    /// No unit letter (m, h or d) found after the interval.
    InvalidUnit,
    /// No colon separating the interval from the title.
    MissingColon,
    /// The title is empty once trimmed.
    EmptyTitle,
}

/// The mathematical model of a parsed reminder specification.
pub struct ReminderSpecModel {
    pub recurring: bool,
    pub interval_unit: IntervalUnit,
    pub min_interval: u64,
    pub max_interval: Option<u64>,
    pub title: Seq<char>,
}

impl ReminderSpecModel {
    /// Validity: the title is 1 to 200 characters and an explicit maximum is
    /// strictly greater than the minimum.
    pub open spec fn wf(self) -> bool {
        &&& 1 <= self.title.len() <= 200
        &&& match self.max_interval {
            Some(m) => m > self.min_interval,
            None => true,
        }
    }
}

/// A parsed reminder specification: how often, in what unit, whether it
/// repeats, and what to say.
#[derive(Debug)]
pub struct ReminderSpec {
    pub recurring: bool,
    pub interval_unit: IntervalUnit,
    pub min_interval: u64,
    pub max_interval: Option<u64>,
    pub title: String,
}

impl View for ReminderSpec {
    type V = ReminderSpecModel;

    open spec fn view(&self) -> ReminderSpecModel {
        ReminderSpecModel {
            recurring: self.recurring,
            interval_unit: self.interval_unit,
            min_interval: self.min_interval,
            max_interval: self.max_interval,
            title: self.title@,
        }
    }
}

/// The command keyword `!reminder`, matched case-insensitively at `i`.
pub open spec fn kw_at(s: Seq<char>, i: int) -> bool {
    &&& 0 <= i
    &&& i + 9 <= s.len()
    &&& s[i] == '!'
    &&& (s[i + 1] == 'r' || s[i + 1] == 'R')
    &&& (s[i + 2] == 'e' || s[i + 2] == 'E')
    &&& (s[i + 3] == 'm' || s[i + 3] == 'M')
    &&& (s[i + 4] == 'i' || s[i + 4] == 'I')
    &&& (s[i + 5] == 'n' || s[i + 5] == 'N')
    &&& (s[i + 6] == 'd' || s[i + 6] == 'D')
    &&& (s[i + 7] == 'e' || s[i + 7] == 'E')
    &&& (s[i + 8] == 'r' || s[i + 8] == 'R')
}

/// The first occurrence of the keyword at or after `i`.
pub open spec fn find_kw_from(s: Seq<char>, i: int) -> Option<int>
    decreases s.len() - i,
{
    if i < 0 || i + 9 > s.len() {
        None
    } else if kw_at(s, i) {
        Some(i)
    } else {
        find_kw_from(s, i + 1)
    }
}

pub proof fn lemma_find_kw_from(s: Seq<char>, i: int)
    requires
        0 <= i,
    ensures
        match find_kw_from(s, i) {
            Some(j) => i <= j && kw_at(s, j),
            None => forall|j: int| i <= j ==> !kw_at(s, j),
        },
    decreases s.len() - i,
{
    if i + 9 <= s.len() && !kw_at(s, i) {
        lemma_find_kw_from(s, i + 1);
    }
}

/// Where scanning starts: right after the first keyword occurrence, or at
/// the front of the text when the keyword is absent.
pub open spec fn idx_start(s: Seq<char>) -> int {
    match find_kw_from(s, 0) {
        Some(i) => i + 9,
        None => 0,
    }
}

/// End of the space run after the keyword.
pub open spec fn idx_spaces(s: Seq<char>) -> int {
    run_end(s, idx_start(s), CharClass::Space)
}

/// The recurring marker: the literal word "every", in either case, at `i`.
pub open spec fn marker_at(s: Seq<char>, i: int) -> bool {
    &&& 0 <= i
    &&& i + 5 <= s.len()
    &&& (s[i] == 'e' || s[i] == 'E')
    &&& (s[i + 1] == 'v' || s[i + 1] == 'V')
    &&& (s[i + 2] == 'e' || s[i + 2] == 'E')
    &&& (s[i + 3] == 'r' || s[i + 3] == 'R')
    &&& (s[i + 4] == 'y' || s[i + 4] == 'Y')
}

/// A reminder is recurring exactly when the word "every" stands right after
/// the keyword's spaces.
pub open spec fn spec_recurring(s: Seq<char>) -> bool {
    marker_at(s, idx_spaces(s))
}

/// End of the recurring marker: past the word "every" and the spaces after
/// it; where the marker is absent, the minimum digits follow at once.
pub open spec fn idx_marker(s: Seq<char>) -> int {
    if spec_recurring(s) {
        run_end(s, idx_spaces(s) + 5, CharClass::Space)
    } else {
        idx_spaces(s)
    }
}

/// End of the minimum-interval digit run.
pub open spec fn idx_min(s: Seq<char>) -> int {
    run_end(s, idx_marker(s), CharClass::Digit)
}

pub open spec fn min_tok(s: Seq<char>) -> Seq<char> {
    s.subrange(idx_marker(s), idx_min(s))
}

/// End of the separator run after the minimum.
pub open spec fn idx_sep1(s: Seq<char>) -> int {
    run_end(s, idx_min(s), CharClass::Sep)
}

/// End of the maximum-interval digit run.
pub open spec fn idx_max(s: Seq<char>) -> int {
    run_end(s, idx_sep1(s), CharClass::Digit)
}

pub open spec fn max_tok(s: Seq<char>) -> Seq<char> {
    s.subrange(idx_sep1(s), idx_max(s))
}

/// End of the separator run after the maximum.
pub open spec fn idx_sep2(s: Seq<char>) -> int {
    run_end(s, idx_max(s), CharClass::Sep)
}

/// End of the unit-letter run.
pub open spec fn idx_unit(s: Seq<char>) -> int {
    run_end(s, idx_sep2(s), CharClass::Unit)
}

pub open spec fn unit_tok(s: Seq<char>) -> Seq<char> {
    s.subrange(idx_sep2(s), idx_unit(s))
}

/// All scan positions are ordered and within the text.
pub proof fn lemma_idx_chain(s: Seq<char>)
    ensures
        0 <= idx_start(s) <= idx_spaces(s) <= idx_marker(s) <= idx_min(s) <= idx_sep1(s)
            <= idx_max(s) <= idx_sep2(s) <= idx_unit(s) <= s.len(),
{
    lemma_find_kw_from(s, 0);
    lemma_run_end(s, idx_start(s), CharClass::Space);
    if spec_recurring(s) {
        lemma_run_end(s, idx_spaces(s) + 5, CharClass::Space);
    }
    lemma_run_end(s, idx_marker(s), CharClass::Digit);
    lemma_run_end(s, idx_min(s), CharClass::Sep);
    lemma_run_end(s, idx_sep1(s), CharClass::Digit);
    lemma_run_end(s, idx_max(s), CharClass::Sep);
    lemma_run_end(s, idx_sep2(s), CharClass::Unit);
}

/// The unit denoted by a unit-letter token: a minute letter wins over an
/// hour letter, which wins over a day letter.
pub open spec fn unit_of_token(tok: Seq<char>) -> IntervalUnit {
    if tok.contains('m') || tok.contains('M') {
        IntervalUnit::Minute
    } else if tok.contains('h') || tok.contains('H') {
        IntervalUnit::Hour
    } else {
        IntervalUnit::Day
    }
}

/// The explicit maximum: present only when its digits fit in 64 bits and
/// exceed the minimum; otherwise it silently collapses to a fixed interval.
pub open spec fn resolve_max(min: u64, tok: Seq<char>) -> Option<u64> {
    if tok.len() == 0 {
        None
    } else if digits_val(tok) <= u64::MAX && digits_val(tok) > min {
        Some(digits_val(tok) as u64)
    } else {
        None
    }
}

/// The last colon at or after `lo` and at or before `j`.
pub open spec fn find_colon_back(s: Seq<char>, lo: int, j: int) -> Option<int>
    decreases j - lo + 1,
{
    if j < lo {
        None
    } else if s[j] == ':' {
        Some(j)
    } else {
        find_colon_back(s, lo, j - 1)
    }
}

/// The colon that starts the title: the last colon after the unit run that
/// still has at least one character after it.
pub open spec fn colon_idx(s: Seq<char>) -> Option<int> {
    find_colon_back(s, idx_unit(s), s.len() - 2)
}

/// Where the captured title text ends: at most 200 characters after the
/// colon at `j`.
pub open spec fn msg_end(s: Seq<char>, j: int) -> int {
    if s.len() - (j + 1) > 200 {
        j + 201
    } else {
        s.len() as int
    }
}

/// The title: the text after the colon, capped at 200 characters, trimmed.
pub open spec fn spec_title(s: Seq<char>, j: int) -> Seq<char> {
    spec_trim(s.subrange(j + 1, msg_end(s, j)))
}

/// What parsing a command yields, in the mathematical model.
pub open spec fn spec_parse(s: Seq<char>) -> Result<ReminderSpecModel, ParseError> {
    if min_tok(s).len() == 0 {
        Err(ParseError::MissingInterval)
    } else if digits_val(min_tok(s)) > u64::MAX {
        Err(ParseError::IntervalTooLarge)
    } else if unit_tok(s).len() == 0 {
        Err(ParseError::InvalidUnit)
    } else {
        match colon_idx(s) {
            None => Err(ParseError::MissingColon),
            Some(j) => {
                if spec_title(s, j).len() == 0 {
                    Err(ParseError::EmptyTitle)
                } else {
                    Ok(
                        ReminderSpecModel {
                            recurring: spec_recurring(s),
                            interval_unit: unit_of_token(unit_tok(s)),
                            min_interval: digits_val(min_tok(s)) as u64,
                            max_interval: resolve_max(
                                digits_val(min_tok(s)) as u64,
                                max_tok(s),
                            ),
                            title: spec_title(s, j),
                        },
                    )
                }
            },
        }
    }
}

fn marker_match_at(v: &Vec<char>, i: usize) -> (b: bool)
    requires
        i <= v.len(),
    ensures
        b == marker_at(v@, i as int),
{
    v.len() >= 5 && i <= v.len() - 5 && (v[i] == 'e' || v[i] == 'E') && (v[i + 1] == 'v' || v[i + 1]
        == 'V') && (v[i + 2] == 'e' || v[i + 2] == 'E') && (v[i + 3] == 'r' || v[i + 3] == 'R') && (
    v[i + 4] == 'y' || v[i + 4] == 'Y')
}

fn kw_match_at(v: &Vec<char>, i: usize) -> (b: bool)
    requires
        i + 9 <= v.len(),
    ensures
        b == kw_at(v@, i as int),
{
    v[i] == '!' && (v[i + 1] == 'r' || v[i + 1] == 'R') && (v[i + 2] == 'e' || v[i + 2] == 'E') && (
    v[i + 3] == 'm' || v[i + 3] == 'M') && (v[i + 4] == 'i' || v[i + 4] == 'I') && (v[i + 5] == 'n'
        || v[i + 5] == 'N') && (v[i + 6] == 'd' || v[i + 6] == 'D') && (v[i + 7] == 'e' || v[i + 7]
        == 'E') && (v[i + 8] == 'r' || v[i + 8] == 'R')
}

fn find_keyword(v: &Vec<char>) -> (r: Option<usize>)
    ensures
        match r {
            Some(i) => find_kw_from(v@, 0) == Some(i as int),
            None => find_kw_from(v@, 0) is None,
        },
{
    if v.len() < 9 {
        return None;
    }
    let hi: usize = v.len() - 9;
    let mut i: usize = 0;
    while i <= hi
        invariant
            i <= hi + 1,
            hi == v.len() - 9,
            find_kw_from(v@, 0) == find_kw_from(v@, i as int),
        decreases hi + 1 - i,
    {
        if kw_match_at(v, i) {
            return Some(i);
        }
        i = i + 1;
    }
    None
}

fn unit_from_token(v: &Vec<char>, lo: usize, hi: usize) -> (u: IntervalUnit)
    requires
        lo <= hi <= v.len(),
    ensures
        u == unit_of_token(v@.subrange(lo as int, hi as int)),
{
    let ghost tok = v@.subrange(lo as int, hi as int);
    let mut has_m = false;
    let mut has_h = false;
    let mut k: usize = lo;
    while k < hi
        invariant
            lo <= k <= hi <= v.len(),
            tok == v@.subrange(lo as int, hi as int),
            has_m == (exists|j: int|
                lo <= j < k && (v@[j] == 'm' || v@[j] == 'M')),
            has_h == (exists|j: int|
                lo <= j < k && (v@[j] == 'h' || v@[j] == 'H')),
        decreases hi - k,
    {
        let c = v[k];
        if c == 'm' || c == 'M' {
            has_m = true;
        }
        if c == 'h' || c == 'H' {
            has_h = true;
        }
        k = k + 1;
    }
    proof {
        assert(has_m == (tok.contains('m') || tok.contains('M'))) by {
            if has_m {
                let j = choose|j: int| lo <= j < hi && (v@[j] == 'm' || v@[j] == 'M');
                assert(tok[j - lo] == v@[j]);
            }
            if tok.contains('m') {
                let j = choose|j: int| 0 <= j < tok.len() && tok[j] == 'm';
                assert(v@[j + lo] == 'm');
            }
            if tok.contains('M') {
                let j = choose|j: int| 0 <= j < tok.len() && tok[j] == 'M';
                assert(v@[j + lo] == 'M');
            }
        }
        assert(has_h == (tok.contains('h') || tok.contains('H'))) by {
            if has_h {
                let j = choose|j: int| lo <= j < hi && (v@[j] == 'h' || v@[j] == 'H');
                assert(tok[j - lo] == v@[j]);
            }
            if tok.contains('h') {
                let j = choose|j: int| 0 <= j < tok.len() && tok[j] == 'h';
                assert(v@[j + lo] == 'h');
            }
            if tok.contains('H') {
                let j = choose|j: int| 0 <= j < tok.len() && tok[j] == 'H';
                assert(v@[j + lo] == 'H');
            }
        }
    }
    if has_m {
        IntervalUnit::Minute
    } else if has_h {
        IntervalUnit::Hour
    } else {
        IntervalUnit::Day
    }
}

fn find_last_colon(v: &Vec<char>, lo: usize) -> (r: Option<usize>)
    requires
        lo <= v.len(),
    ensures
        match r {
            Some(j) => find_colon_back(v@, lo as int, v@.len() - 2) == Some(j as int) && lo <= j
                && j + 2 <= v.len(),
            None => find_colon_back(v@, lo as int, v@.len() - 2) is None,
        },
{
    if v.len() < 2 {
        return None;
    }
    let hi: usize = v.len() - 2;
    if lo > hi {
        return None;
    }
    let mut k: usize = hi;
    loop
        invariant
            lo <= k <= hi,
            hi == v.len() - 2,
            find_colon_back(v@, lo as int, hi as int) == find_colon_back(v@, lo as int, k as int),
        decreases k,
    {
        if v[k] == ':' {
            return Some(k);
        }
        if k == lo {
            proof {
                assert(find_colon_back(v@, lo as int, k as int - 1) is None);
            }
            return None;
        }
        k = k - 1;
    }
}

/// Parses a raw reminder command into a specification.
///
/// The result is exactly what the grammar model [`spec_parse`] assigns to
/// the text, both on success and on failure.
pub fn parse(text: &str) -> (r: Result<ReminderSpec, ParseError>)
    ensures
        match spec_parse(text@) {
            Ok(m) => r matches Ok(sp) && sp@ == m,
            Err(e) => r matches Err(e2) && e2 == e,
        },
{
    let v = chars_vec(text);
    proof {
        lemma_idx_chain(v@);
        lemma_find_kw_from(v@, 0);
    }
    let start: usize = match find_keyword(&v) {
        Some(i) => i + 9,
        None => 0,
    };
    let i1 = scan_run(&v, start, CharClass::Space);
    proof {
        lemma_run_end(v@, start as int, CharClass::Space);
    }
    let recurring = marker_match_at(&v, i1);
    let i2 = if recurring {
        scan_run(&v, i1 + 5, CharClass::Space)
    } else {
        i1
    };
    let i3 = scan_run(&v, i2, CharClass::Digit);
    if i2 == i3 {
        return Err(ParseError::MissingInterval);
    }
    proof {
        lemma_run_end(v@, i2 as int, CharClass::Digit);
    }
    let min: u64 = match parse_digits(&v, i2, i3) {
        Some(n) => n,
        None => {
            return Err(ParseError::IntervalTooLarge);
        },
    };
    let i4 = scan_run(&v, i3, CharClass::Sep);
    let i5 = scan_run(&v, i4, CharClass::Digit);
    proof {
        lemma_run_end(v@, i4 as int, CharClass::Digit);
    }
    let max_interval: Option<u64> = if i4 == i5 {
        None
    } else {
        match parse_digits(&v, i4, i5) {
            Some(n) => if n > min {
                Some(n)
            } else {
                None
            },
            None => None,
        }
    };
    proof {
        assert(max_interval == resolve_max(min, max_tok(v@)));
    }
    let i6 = scan_run(&v, i5, CharClass::Sep);
    let i7 = scan_run(&v, i6, CharClass::Unit);
    if i6 == i7 {
        return Err(ParseError::InvalidUnit);
    }
    let unit = unit_from_token(&v, i6, i7);
    let j: usize = match find_last_colon(&v, i7) {
        Some(j) => j,
        None => {
            return Err(ParseError::MissingColon);
        },
    };
    let me: usize = if v.len() - (j + 1) > 200 {
        j + 201
    } else {
        v.len()
    };
    let msg = copy_range(&v, j + 1, me);
    let trimmed = trim_chars(&msg);
    if trimmed.len() == 0 {
        return Err(ParseError::EmptyTitle);
    }
    let title = string_from_chars(&trimmed);
    Ok(
        ReminderSpec {
            recurring,
            interval_unit: unit,
            min_interval: min,
            max_interval,
            title,
        },
    )
}

/// Everything a successful parse yields is well formed.
pub proof fn lemma_spec_parse_wf(s: Seq<char>)
    ensures
        spec_parse(s) matches Ok(m) ==> m.wf(),
{
    if spec_parse(s) is Ok {
        lemma_idx_chain(s);
        let j = colon_idx(s).unwrap();
        assert(colon_idx(s) is Some);
        lemma_find_colon_back(s, idx_unit(s), s.len() - 2);
        let msg = s.subrange(j + 1, msg_end(s, j));
        crate::chars::lemma_trim_right_len(msg);
        crate::chars::lemma_run_end(msg, 0, CharClass::White);
        assert(spec_title(s, j).len() <= msg.len());
        assert(msg.len() <= 200);
    }
}

/// A found colon lies between `lo` and `j` and carries a colon character.
pub proof fn lemma_find_colon_back(s: Seq<char>, lo: int, j: int)
    ensures
        match find_colon_back(s, lo, j) {
            Some(k) => lo <= k <= j && s[k] == ':',
            None => forall|k: int| lo <= k <= j ==> s[k] != ':',
        },
    decreases j - lo + 1,
{
    if j >= lo && s[j] != ':' {
        lemma_find_colon_back(s, lo, j - 1);
    }
}

} // verus!
