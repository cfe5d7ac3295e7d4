//! The bot's help text, listing its commands.
use vstd::prelude::*;
use vstd::string::StringExecFns;

verus! {

pub open spec fn spec_help_text() -> Seq<char> {
    "\u{1f916} Here is a list of my commands:\n\n\u{2139}\u{fe0f} - help\n!botto\n\n\u{1fa99} - coin flip\n!coinflip\n\n\u{1f464} - get random user\n!nominate\n\n\u{1f3b2} - dice roll\n!r d6\n!r 2d8\n!r 2d6 - 1d4 + 3\n\n\u{23f2}\u{fe0f} - reminder [minutes, hours, days]\n!reminder 10 minutes: Check the oven\n!reminder 2 hours: Laundry is done\n!reminder 10 days: Mow the lawn\n\n\u{23f2}\u{fe0f}\u{1f501} - recurring reminder\n!reminder every 42 days: Get a haircut.\n\n\u{23f2}\u{fe0f} \u{1f500} - random reminder\n!reminder 1-3d: Go to the gym every 1-3 days\n\n\u{23f2}\u{fe0f}\u{2699}\u{fe0f} - manage reminders\n!reminders - list all reminders\n!deleteReminder 3 - delete 3rd reminder from list\n!deleteAllReminders - delete all reminders\n\n\u{1f517} Bot's source code: \nhttps://github.com/jflessau/botto\n"@
}

/// The reply to a help request.
pub fn text() -> (r: String)
    ensures
        r@ == spec_help_text(),
{
    String::from_str(
        "\u{1f916} Here is a list of my commands:\n\n\u{2139}\u{fe0f} - help\n!botto\n\n\u{1fa99} - coin flip\n!coinflip\n\n\u{1f464} - get random user\n!nominate\n\n\u{1f3b2} - dice roll\n!r d6\n!r 2d8\n!r 2d6 - 1d4 + 3\n\n\u{23f2}\u{fe0f} - reminder [minutes, hours, days]\n!reminder 10 minutes: Check the oven\n!reminder 2 hours: Laundry is done\n!reminder 10 days: Mow the lawn\n\n\u{23f2}\u{fe0f}\u{1f501} - recurring reminder\n!reminder every 42 days: Get a haircut.\n\n\u{23f2}\u{fe0f} \u{1f500} - random reminder\n!reminder 1-3d: Go to the gym every 1-3 days\n\n\u{23f2}\u{fe0f}\u{2699}\u{fe0f} - manage reminders\n!reminders - list all reminders\n!deleteReminder 3 - delete 3rd reminder from list\n!deleteAllReminders - delete all reminders\n\n\u{1f517} Bot's source code: \nhttps://github.com/jflessau/botto\n",
    )
}

} // verus!
