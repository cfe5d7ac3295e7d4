//! Rendering reminders back into text: the display form used in
//! confirmations and listings, and the fixed reply texts of the bot.
use vstd::prelude::*;
use vstd::string::StringExecFns;

use crate::IntervalUnit;
use crate::chars::{digits_of, u64_digits, string_from_chars};
use crate::parse::{ReminderSpec, ReminderSpecModel};

verus! {

pub open spec fn spec_unit_name(u: IntervalUnit) -> Seq<char> {
    match u {
        IntervalUnit::Minute => "minute"@,
        IntervalUnit::Hour => "hour"@,
        IntervalUnit::Day => "day"@,
    }
}

pub open spec fn spec_every(recurring: bool) -> Seq<char> {
    if recurring {
        "every "@
    } else {
        Seq::<char>::empty()
    }
}

/// The interval part of the display form: `<min> - <max> <unit>s` for a
/// ranged interval, else `<min> <unit>` with a plural s unless the minimum
/// is exactly 1.
pub open spec fn spec_range_text(m: ReminderSpecModel) -> Seq<char> {
    match m.max_interval {
        Some(mx) => digits_of(m.min_interval as int) + " - "@ + digits_of(mx as int) + " "@
            + spec_unit_name(m.interval_unit) + "s"@,
        None => digits_of(m.min_interval as int) + " "@ + spec_unit_name(m.interval_unit) + (
        if m.min_interval == 1 {
            Seq::<char>::empty()
        } else {
            "s"@
        }),
    }
}

/// The display form of a reminder specification:
/// `[every ]<interval>: <title>`.
pub open spec fn spec_render(m: ReminderSpecModel) -> Seq<char> {
    spec_every(m.recurring) + spec_range_text(m) + ": "@ + m.title
}

/// Renders a reminder specification in its display form.
pub fn render_spec(sp: &ReminderSpec) -> (r: String)
    ensures
        r@ == spec_render(sp@),
{
    let mut s = String::new();
    if sp.recurring {
        s.append("every ");
    }
    let min_digits = u64_digits(sp.min_interval);
    let min_str = string_from_chars(&min_digits);
    s.append(min_str.as_str());
    match sp.max_interval {
        Some(mx) => {
            s.append(" - ");
            let max_digits = u64_digits(mx);
            let max_str = string_from_chars(&max_digits);
            s.append(max_str.as_str());
            s.append(" ");
            s.append(unit_name(sp.interval_unit));
            s.append("s");
        },
        None => {
            s.append(" ");
            s.append(unit_name(sp.interval_unit));
            if sp.min_interval != 1 {
                s.append("s");
            }
        },
    }
    s.append(": ");
    s.append(sp.title.as_str());
    proof {
        assert(s@ =~= spec_render(sp@));
    }
    s
}

fn unit_name(u: IntervalUnit) -> (r: &'static str)
    ensures
        r@ == spec_unit_name(u),
{
    match u {
        IntervalUnit::Minute => "minute",
        IntervalUnit::Hour => "hour",
        IntervalUnit::Day => "day",
    }
}

/// The reply to a reminder command that could not be parsed.
pub open spec fn spec_hint_text() -> Seq<char> {
    "Sorry, I don't know how to parse that reminder.\nUse the !botto command to get some hints."@
}

pub fn hint_text() -> (r: String)
    ensures
        r@ == spec_hint_text(),
{
    String::from_str(
        "Sorry, I don't know how to parse that reminder.\nUse the !botto command to get some hints.",
    )
}

/// The confirmation for a newly created reminder.
pub open spec fn spec_created_text(m: ReminderSpecModel) -> Seq<char> {
    "Reminder created: "@ + spec_render(m)
}

/// The confirmation for a deleted reminder.
pub open spec fn spec_deleted_text(m: ReminderSpecModel) -> Seq<char> {
    "Reminder deleted: "@ + spec_render(m)
}

/// The notification body delivered when a reminder fires.
pub open spec fn spec_notify_text(title: Seq<char>) -> Seq<char> {
    title + "\n🔔🔔🔔"@
}

pub fn notify_text(title: &str) -> (r: String)
    ensures
        r@ == spec_notify_text(title@),
{
    let mut s = String::from_str(title);
    s.append("\n🔔🔔🔔");
    s
}

/// The reply to a list request when the room has no reminders.
pub open spec fn spec_no_reminders_text() -> Seq<char> {
    "No reminders found. Create one with e.g.\n\n!reminder 2 days: Take out the trash.\n\nOr use the !botto command to get more info."@
}

pub fn no_reminders_text() -> (r: String)
    ensures
        r@ == spec_no_reminders_text(),
{
    String::from_str(
        "No reminders found. Create one with e.g.\n\n!reminder 2 days: Take out the trash.\n\nOr use the !botto command to get more info.",
    )
}

/// The confirmation after deleting every reminder of a room.
pub open spec fn spec_all_deleted_text() -> Seq<char> {
    "All reminders deleted."@
}

pub fn all_deleted_text() -> (r: String)
    ensures
        r@ == spec_all_deleted_text(),
{
    String::from_str("All reminders deleted.")
}

/// One line of a listing: a newline, the 1-based position, a dot and the
/// rendered reminder.
pub open spec fn spec_list_line(k: int, m: ReminderSpecModel) -> Seq<char> {
    "\n"@ + digits_of(k + 1) + ". "@ + spec_render(m)
}

pub open spec fn spec_list_lines(entries: Seq<ReminderSpecModel>) -> Seq<char>
    decreases entries.len(),
{
    if entries.len() == 0 {
        Seq::<char>::empty()
    } else {
        spec_list_lines(entries.drop_last()) + spec_list_line(
            entries.len() - 1,
            entries.last(),
        )
    }
}

/// The reply to a list request: a headline, then one numbered line per
/// reminder of the room in creation order; or the fixed text for an empty
/// room.
pub open spec fn spec_list_text(entries: Seq<ReminderSpecModel>) -> Seq<char> {
    if entries.len() == 0 {
        spec_no_reminders_text()
    } else {
        "⏲️ Reminders:"@ + spec_list_lines(entries)
    }
}

} // verus!
