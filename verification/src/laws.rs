//! Laws of the reminder grammar, proved once and for all inputs: how an
//! explicit range resolves, how the unit letter priority decides, and that
//! rendering a fixed-interval specification and parsing it back yields the
//! same specification.
use vstd::prelude::*;

use crate::IntervalUnit;
use crate::chars::{
    CharClass,
    run_end,
    is_digit,
    is_unit_letter,
    is_white,
    lemma_run_end_is,
    digits_val,
    digits_of,
    lemma_digits_of_digits,
    lemma_digits_of_val,
    spec_trim,
    trim_right_len,
    lemma_trim_right_len,
    lemma_trim_right_len_is,
};
use crate::parse::{
    ReminderSpecModel,
    kw_at,
    marker_at,
    find_kw_from,
    lemma_find_kw_from,
    idx_start,
    idx_spaces,
    spec_recurring,
    idx_marker,
    idx_min,
    min_tok,
    idx_sep1,
    idx_max,
    max_tok,
    idx_sep2,
    idx_unit,
    unit_tok,
    unit_of_token,
    resolve_max,
    find_colon_back,
    colon_idx,
    msg_end,
    spec_title,
    spec_parse,
};
use crate::render::{spec_render, spec_unit_name, spec_every, spec_range_text};
use crate::schedule::{ReminderModel, fired_from, sched_at, lemma_sched_at_future};

verus! {

/// When several unit letters appear in the captured unit token, the minute
/// letter wins over the hour letter, which wins over the day letter,
/// case-insensitively and wherever each stands in the token.
pub proof fn lemma_unit_priority(tok: Seq<char>)
    ensures
        tok.contains('m') || tok.contains('M') ==> unit_of_token(tok) == IntervalUnit::Minute,
        !(tok.contains('m') || tok.contains('M')) && (tok.contains('h') || tok.contains('H'))
            ==> unit_of_token(tok) == IntervalUnit::Hour,
        !(tok.contains('m') || tok.contains('M')) && !(tok.contains('h') || tok.contains('H'))
            ==> unit_of_token(tok) == IntervalUnit::Day,
{
}

/// The last colon at or before `j` is found where the colon stands and no
/// later position up to `j` holds one.
proof fn lemma_find_colon_back_is(s: Seq<char>, lo: int, j: int, e: int)
    requires
        lo <= e <= j,
        s[e] == ':',
        forall|k: int| e < k <= j ==> s[k] != ':',
    ensures
        find_colon_back(s, lo, j) == Some(e),
    decreases j - e,
{
    if j > e {
        lemma_find_colon_back_is(s, lo, j - 1, e);
    }
}

/// A text whose first non-whitespace character stands anywhere does not
/// trim to empty.
proof fn lemma_trim_nonempty(s: Seq<char>, fw: int)
    requires
        0 <= fw < s.len(),
        forall|j: int| 0 <= j < fw ==> is_white(s[j]),
        !is_white(s[fw]),
    ensures
        spec_trim(s).len() >= 1,
{
    lemma_run_end_is(s, 0, CharClass::White, fw);
    lemma_trim_right_len(s);
    if trim_right_len(s) <= fw {
        assert(is_white(s[fw]));
    }
}

/// Trimming one leading space off a text that starts and ends with
/// non-whitespace gives back the text.
proof fn lemma_trim_space_then(title: Seq<char>)
    requires
        title.len() >= 1,
        !is_white(title[0]),
        !is_white(title[title.len() - 1]),
    ensures
        spec_trim(seq![' '] + title) == title,
{
    let s = seq![' '] + title;
    lemma_run_end_is(s, 0, CharClass::White, 1);
    lemma_trim_right_len_is(s, s.len() as int);
    assert(s.subrange(1, s.len() as int) =~= title);
}

/// A text without an exclamation mark holds no command keyword, so scanning
/// starts at its front.
proof fn lemma_no_keyword(t: Seq<char>)
    requires
        forall|i: int| 0 <= i < t.len() ==> t[i] != '!',
    ensures
        find_kw_from(t, 0) is None,
        idx_start(t) == 0,
{
    lemma_find_kw_from(t, 0);
    if find_kw_from(t, 0) is Some {
        let j = find_kw_from(t, 0)->Some_0;
        assert(t[j] == '!');
    }
}

/// How an explicitly ranged command parses, in full generality: for every
/// minimum and maximum, every run of spaces after the keyword, with or
/// without the recurring marker, every separator between the two numbers
/// (any nonempty run holding no digit and no unit letter), every nonempty
/// unit token of unit letters, and every title whose first 200 characters
/// hold something beyond whitespace and whose interior holds no colon: the
/// command parses, keeps the minimum, resolves the unit by the letter
/// priority, and yields `max_interval = Some(max)` exactly when the maximum
/// is strictly greater than the minimum — otherwise the range silently
/// collapses to a fixed interval with no maximum.
#[verifier::rlimit(100)]
pub proof fn lemma_explicit_range(
    recurring: bool,
    spaces: Seq<char>,
    min: u64,
    max: u64,
    sep: Seq<char>,
    unit: Seq<char>,
    title: Seq<char>,
)
    requires
        forall|i: int| 0 <= i < spaces.len() ==> spaces[i] == ' ',
        sep.len() >= 1,
        forall|i: int| 0 <= i < sep.len() ==> !is_digit(sep[i]) && !is_unit_letter(sep[i]),
        unit.len() >= 1,
        forall|i: int| 0 <= i < unit.len() ==> is_unit_letter(unit[i]),
        run_end(title, 0, CharClass::White) < title.len(),
        run_end(title, 0, CharClass::White) < 200,
        forall|i: int| 0 <= i < title.len() - 1 ==> title[i] != ':',
    ensures
        ({
            let t = "!reminder"@ + spaces + spec_every(recurring) + digits_of(min as int) + sep
                + digits_of(max as int) + unit + ":"@ + title;
            &&& spec_parse(t) is Ok
            &&& spec_parse(t)->Ok_0.recurring == recurring
            &&& spec_parse(t)->Ok_0.min_interval == min
            &&& spec_parse(t)->Ok_0.max_interval == (if max > min {
                Some(max)
            } else {
                Option::<u64>::None
            })
            &&& spec_parse(t)->Ok_0.interval_unit == unit_of_token(unit)
        }),
{
    reveal_strlit("!reminder");
    reveal_strlit("every ");
    reveal_strlit(":");
    let ev = spec_every(recurring);
    let d1 = digits_of(min as int);
    let d2 = digits_of(max as int);
    lemma_digits_of_digits(min as int);
    lemma_digits_of_digits(max as int);
    lemma_digits_of_val(min as int);
    lemma_digits_of_val(max as int);
    let t = "!reminder"@ + spaces + ev + d1 + sep + d2 + unit + ":"@ + title;
    let ns = spaces.len() as int;
    let ne = ev.len() as int;
    let n1 = d1.len() as int;
    let nsep = sep.len() as int;
    let n2 = d2.len() as int;
    let nu = unit.len() as int;
    let tl = title.len() as int;
    let q1 = 9 + ns;
    let q2 = q1 + ne;
    let q3 = q2 + n1;
    let q4 = q3 + nsep;
    let q5 = q4 + n2;
    let jc = q5 + nu;
    assert(t.len() == jc + 1 + tl);
    // where each piece of the command stands in the text
    assert(forall|k: int| 9 <= k < q1 ==> #[trigger] t[k] == ' ');
    assert(forall|k: int| q1 <= k < q2 ==> #[trigger] t[k] == ev[k - q1]);
    assert(forall|k: int| q2 <= k < q3 ==> #[trigger] t[k] == d1[k - q2]);
    assert(forall|k: int| q3 <= k < q4 ==> #[trigger] t[k] == sep[k - q3]);
    assert(forall|k: int| q4 <= k < q5 ==> #[trigger] t[k] == d2[k - q4]);
    assert(forall|k: int| q5 <= k < jc ==> #[trigger] t[k] == unit[k - q5]);
    assert(t[jc] == ':');
    assert(forall|k: int| jc + 1 <= k < t.len() ==> #[trigger] t[k] == title[k - (jc + 1)]);
    // the keyword anchors the scan at its front
    assert(kw_at(t, 0));
    assert(find_kw_from(t, 0) == Some(0int));
    assert(idx_start(t) == 9);
    // the space run ends where the marker or the digits begin
    assert(is_digit(d1[0]));
    if recurring {
        assert(ev[0] == 'e' && ev[1] == 'v' && ev[2] == 'e' && ev[3] == 'r' && ev[4] == 'y'
            && ev[5] == ' ');
    }
    lemma_run_end_is(t, 9, CharClass::Space, q1);
    assert(idx_spaces(t) == q1);
    if recurring {
        assert(marker_at(t, q1));
        assert(t[q1 + 5] == ' ');
        assert(t[q1 + 6] == d1[0]);
        lemma_run_end_is(t, q1 + 5, CharClass::Space, q2);
        assert(idx_marker(t) == q2);
    } else {
        assert(t[q1] == d1[0]);
        assert(!marker_at(t, q1));
        assert(idx_marker(t) == q2);
    }
    assert(spec_recurring(t) == recurring);
    // the minimum digits, then the separator, then the maximum digits
    lemma_run_end_is(t, q2, CharClass::Digit, q3);
    assert(idx_min(t) == q3);
    assert(min_tok(t) =~= d1);
    assert(digits_val(min_tok(t)) == min);
    lemma_run_end_is(t, q3, CharClass::Sep, q4);
    assert(idx_sep1(t) == q4);
    lemma_run_end_is(t, q4, CharClass::Digit, q5);
    assert(idx_max(t) == q5);
    assert(max_tok(t) =~= d2);
    assert(digits_val(max_tok(t)) == max);
    // the unit token follows the maximum at once
    lemma_run_end_is(t, q5, CharClass::Sep, q5);
    assert(idx_sep2(t) == q5);
    lemma_run_end_is(t, q5, CharClass::Unit, jc);
    assert(idx_unit(t) == jc);
    assert(unit_tok(t) =~= unit);
    // the grammar colon is the last one with text after it
    assert forall|k: int| jc < k <= t.len() - 2 implies t[k] != ':' by {
        assert(t[k] == title[k - (jc + 1)]);
        assert(k - (jc + 1) < tl - 1);
    }
    lemma_find_colon_back_is(t, jc, t.len() - 2, jc);
    assert(colon_idx(t) == Some(jc));
    // the captured title is nonempty once trimmed: its first character
    // beyond whitespace falls inside the 200-character capture
    let fw = run_end(title, 0, CharClass::White);
    crate::chars::lemma_run_end(title, 0, CharClass::White);
    let me = msg_end(t, jc);
    let msg = t.subrange(jc + 1, me);
    if tl > 200 {
        assert(msg =~= title.subrange(0, 200));
    } else {
        assert(msg =~= title);
    }
    assert(forall|j: int| 0 <= j < fw ==> is_white(msg[j]));
    assert(!is_white(msg[fw]));
    lemma_trim_nonempty(msg, fw);
    assert(spec_title(t, jc).len() >= 1);
    assert(resolve_max(min, max_tok(t)) == (if max > min {
        Some(max)
    } else {
        Option::<u64>::None
    }));
}

/// The scan of a display form: parsing a text whose tail after some prefix
/// is the display form of a valid fixed-interval specification, where the
/// space scan lands right after the prefix, yields the specification back.
#[verifier::rlimit(100)]
proof fn lemma_render_walk(m: ReminderSpecModel, pre: Seq<char>)
    requires
        m.wf(),
        m.max_interval is None,
        m.title.len() <= 199,
        !is_white(m.title[0]),
        !is_white(m.title[m.title.len() - 1]),
        forall|i: int| 0 <= i < m.title.len() - 1 ==> m.title[i] != ':',
        idx_spaces(pre + spec_render(m)) == pre.len(),
    ensures
        spec_parse(pre + spec_render(m)) == Ok::<ReminderSpecModel, crate::parse::ParseError>(m),
{
    let t = pre + spec_render(m);
    let off = pre.len() as int;
    reveal_strlit("every ");
    reveal_strlit(" ");
    reveal_strlit("s");
    reveal_strlit(": ");
    reveal_strlit("minute");
    reveal_strlit("hour");
    reveal_strlit("day");
    let ev = spec_every(m.recurring);
    let d1 = digits_of(m.min_interval as int);
    let uw = spec_unit_name(m.interval_unit);
    let pl: Seq<char> = if m.min_interval == 1 {
        Seq::<char>::empty()
    } else {
        "s"@
    };
    lemma_digits_of_digits(m.min_interval as int);
    lemma_digits_of_val(m.min_interval as int);
    let ne = ev.len() as int;
    let n1 = d1.len() as int;
    let nu = uw.len() as int;
    let np = pl.len() as int;
    let title = m.title;
    assert(spec_range_text(m) == d1 + " "@ + uw + pl);
    assert(spec_render(m) == ev + (d1 + " "@ + uw + pl) + ": "@ + title);
    let jc = off + ne + n1 + 1 + nu + np;
    assert(t.len() == jc + 2 + title.len());
    // where each character of the display form stands in the text
    assert(forall|i: int| 0 <= i < ne ==> t[off + i] == ev[i]);
    assert(forall|i: int| 0 <= i < n1 ==> t[off + ne + i] == d1[i]);
    assert(t[off + ne + n1] == ' ');
    assert(forall|i: int| 0 <= i < nu ==> t[off + ne + n1 + 1 + i] == uw[i]);
    assert(forall|i: int| 0 <= i < np ==> t[off + ne + n1 + 1 + nu + i] == pl[i]);
    assert(t[jc] == ':');
    assert(t[jc + 1] == ' ');
    assert(forall|i: int| 0 <= i < title.len() ==> t[jc + 2 + i] == title[i]);
    // the marker word decides the recurring flag; scanning moves past it
    assert(is_digit(d1[0]));
    if m.recurring {
        assert(ev[0] == 'e' && ev[1] == 'v' && ev[2] == 'e' && ev[3] == 'r' && ev[4] == 'y'
            && ev[5] == ' ');
        assert(marker_at(t, off));
        assert(spec_recurring(t) == m.recurring);
        assert(t[off + 5] == ' ');
        assert(t[off + 6] == d1[0]);
        lemma_run_end_is(t, off + 5, CharClass::Space, off + 6);
        assert(idx_marker(t) == off + ne);
    } else {
        assert(t[off] == d1[0]);
        assert(!marker_at(t, off));
        assert(spec_recurring(t) == m.recurring);
        assert(idx_marker(t) == off + ne);
    }
    // the minimum interval digits
    lemma_run_end_is(t, off + ne, CharClass::Digit, off + ne + n1);
    assert(idx_min(t) == off + ne + n1);
    assert(min_tok(t) =~= d1);
    assert(digits_val(min_tok(t)) == m.min_interval);
    // the single separating space; the unit word follows at once
    assert(uw[0] == 'm' || uw[0] == 'h' || uw[0] == 'd');
    assert(is_unit_letter(t[off + ne + n1 + 1]));
    lemma_run_end_is(t, off + ne + n1, CharClass::Sep, off + ne + n1 + 1);
    assert(idx_sep1(t) == off + ne + n1 + 1);
    // no maximum digits
    lemma_run_end_is(t, off + ne + n1 + 1, CharClass::Digit, off + ne + n1 + 1);
    assert(idx_max(t) == off + ne + n1 + 1);
    assert(max_tok(t) =~= Seq::<char>::empty());
    assert(resolve_max(m.min_interval, max_tok(t)) is None);
    lemma_run_end_is(t, off + ne + n1 + 1, CharClass::Sep, off + ne + n1 + 1);
    assert(idx_sep2(t) == off + ne + n1 + 1);
    // the unit run is the unit word's first letter alone
    assert(!is_unit_letter(uw[1]) && !is_digit(uw[1]));
    lemma_run_end_is(t, off + ne + n1 + 1, CharClass::Unit, off + ne + n1 + 2);
    assert(idx_unit(t) == off + ne + n1 + 2);
    let tok = unit_tok(t);
    assert(tok =~= seq![uw[0]]);
    assert(forall|i: int| 0 <= i < tok.len() ==> tok[i] == uw[0]);
    match m.interval_unit {
        IntervalUnit::Minute => {
            assert(tok[0] == 'm');
            assert(tok.contains('m'));
            assert(unit_of_token(tok) == IntervalUnit::Minute);
        },
        IntervalUnit::Hour => {
            assert(!tok.contains('m') && !tok.contains('M'));
            assert(tok[0] == 'h');
            assert(tok.contains('h'));
            assert(unit_of_token(tok) == IntervalUnit::Hour);
        },
        IntervalUnit::Day => {
            assert(!tok.contains('m') && !tok.contains('M') && !tok.contains('h')
                && !tok.contains('H'));
            assert(unit_of_token(tok) == IntervalUnit::Day);
        },
    }
    // the colon that starts the title is the separator colon: every later
    // position up to the second-to-last character belongs to the title's
    // interior, which holds no colon
    assert(forall|i: int| 1 <= i < nu ==> uw[i] != ':');
    assert forall|k: int| jc < k <= t.len() - 2 implies t[k] != ':' by {
        if k == jc + 1 {
            assert(t[k] == ' ');
        } else {
            assert(t[k] == title[k - (jc + 2)]);
            assert(k - (jc + 2) < title.len() - 1);
        }
    }
    lemma_find_colon_back_is(t, off + ne + n1 + 2, t.len() - 2, jc);
    assert(colon_idx(t) == Some(jc));
    // the captured title: the space and the title fit the 200-character cap
    assert(t.len() - (jc + 1) == 1 + title.len());
    assert(msg_end(t, jc) == t.len());
    assert(t.subrange(jc + 1, t.len() as int) =~= seq![' '] + title);
    lemma_trim_space_then(title);
    assert(spec_title(t, jc) == title);
    assert(spec_title(t, jc).len() >= 1);
    assert(spec_parse(t)->Ok_0 =~= m);
}

/// Round trip for fixed-interval specifications: rendering a valid,
/// non-ranged specification in its display form and parsing the result
/// yields the specification back — recurring flag, unit, minimum interval
/// and title all preserved.
///
/// The preconditions pin down the display forms that are re-readable at
/// all: the title is already trimmed, stays under the parser's
/// 200-character title capture (the separating space costs one of the 200),
/// has no colon that still has text after it (the parser takes the title
/// after the last such colon), and the rendered text nowhere contains the
/// command keyword (the parser would scan after it).
pub proof fn lemma_round_trip_fixed(m: ReminderSpecModel)
    requires
        m.wf(),
        m.max_interval is None,
        m.title.len() <= 199,
        !is_white(m.title[0]),
        !is_white(m.title[m.title.len() - 1]),
        forall|i: int| 0 <= i < m.title.len() - 1 ==> m.title[i] != ':',
        forall|i: int| !kw_at(spec_render(m), i),
    ensures
        spec_parse(spec_render(m)) == Ok::<ReminderSpecModel, crate::parse::ParseError>(m),
{
    reveal_strlit("every ");
    let t = spec_render(m);
    lemma_no_keyword_found(t);
    let d1 = digits_of(m.min_interval as int);
    lemma_digits_of_digits(m.min_interval as int);
    if m.recurring {
        assert(t[0] == 'e');
    } else {
        assert(t[0] == d1[0]);
        assert(is_digit(t[0]));
    }
    lemma_run_end_is(t, 0, CharClass::Space, 0);
    assert(idx_spaces(t) == 0);
    assert(Seq::<char>::empty() + spec_render(m) =~= spec_render(m));
    lemma_render_walk(m, Seq::<char>::empty());
}

/// Round trip for fixed-interval specifications in command form: the
/// keyword, a space and the display form parse back to the specification.
/// The keyword at the front anchors the scan, so here the title may even
/// contain the keyword; the other preconditions are as for the bare
/// display form.
pub proof fn lemma_round_trip_fixed_command(m: ReminderSpecModel)
    requires
        m.wf(),
        m.max_interval is None,
        m.title.len() <= 199,
        !is_white(m.title[0]),
        !is_white(m.title[m.title.len() - 1]),
        forall|i: int| 0 <= i < m.title.len() - 1 ==> m.title[i] != ':',
    ensures
        spec_parse("!reminder "@ + spec_render(m)) == Ok::<
            ReminderSpecModel,
            crate::parse::ParseError,
        >(m),
{
    reveal_strlit("!reminder ");
    reveal_strlit("every ");
    let pre = "!reminder "@;
    let r = spec_render(m);
    let t = pre + r;
    assert(pre.len() == 10);
    assert(t.len() == 10 + r.len());
    assert(forall|i: int| 0 <= i < r.len() ==> t[10 + i] == r[i]);
    assert(kw_at(t, 0));
    assert(find_kw_from(t, 0) == Some(0int));
    assert(idx_start(t) == 9);
    assert(t[9] == ' ');
    let d1 = digits_of(m.min_interval as int);
    lemma_digits_of_digits(m.min_interval as int);
    if m.recurring {
        assert(t[10] == 'e');
    } else {
        assert(t[10] == d1[0]);
        assert(is_digit(t[10]));
    }
    lemma_run_end_is(t, 9, CharClass::Space, 10);
    assert(idx_spaces(t) == 10);
    lemma_render_walk(m, pre);
}

/// A fired recurring reminder is always rescheduled, never left without a
/// next fire: its next fire lies at or after the moment it fired, and
/// strictly after whenever its minimum interval is at least one unit and
/// the clock can still advance.
pub proof fn lemma_recurring_stays_scheduled(f: ReminderModel, r: ReminderModel, now: i64)
    requires
        fired_from(f, r, now),
        r.recurring,
    ensures
        f.next_send_at is Some,
        f.next_send_at matches Some(t) && t >= now,
        r.min_interval >= 1 && now < i64::MAX ==> (f.next_send_at matches Some(t) && t > now),
{
    let drawn = choose|drawn: u64|
        r.min_interval <= drawn <= r.max_draw() && f.next_send_at == Some(
            sched_at(now, drawn, r.interval_unit),
        );
    lemma_sched_at_future(now, drawn, r.interval_unit);
}

/// A fired one-shot reminder is exhausted for good: it is never due again,
/// at no later moment, so it fires exactly once.
pub proof fn lemma_one_shot_fires_once(f: ReminderModel, r: ReminderModel, now: i64)
    requires
        fired_from(f, r, now),
        !r.recurring,
    ensures
        f.next_send_at is None,
        forall|t: i64| !f.is_due(t),
{
}

/// A text in which the keyword occurs nowhere is scanned from its front.
proof fn lemma_no_keyword_found(t: Seq<char>)
    requires
        forall|i: int| !kw_at(t, i),
    ensures
        find_kw_from(t, 0) is None,
        idx_start(t) == 0,
{
    lemma_find_kw_from(t, 0);
    if find_kw_from(t, 0) is Some {
        let j = find_kw_from(t, 0)->Some_0;
        assert(kw_at(t, j));
    }
}

} // verus!
