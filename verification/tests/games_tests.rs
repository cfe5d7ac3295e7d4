use std::cmp::Ordering;

use botto::games::{Item, Rps};
use botto::help;

#[test]
fn rps_reads_choices_case_insensitively() {
    assert_eq!(Rps::try_from_string("rock".to_string()), Ok(Rps::Rock));
    assert_eq!(Rps::try_from_string("  PAPER ".to_string()), Ok(Rps::Paper));
    assert_eq!(Rps::try_from_string("Scissors".to_string()), Ok(Rps::Scissors));
}

#[test]
fn rps_lowercases_beyond_ascii() {
    // the Kelvin sign lowercases to k under the Unicode mapping
    assert_eq!(Rps::try_from_string("roc\u{212a}".to_string()), Ok(Rps::Rock));
    assert_eq!(Rps::try_from_string(" ROC\u{212a} ".to_string()), Ok(Rps::Rock));
}

#[test]
fn rps_rejects_anything_else() {
    let err = Rps::try_from_string("spock".to_string()).unwrap_err();
    assert_eq!(err, "Invalid choice. Please choose 'rock', 'paper', or 'scissors'.");
    assert!(Rps::try_from_string("".to_string()).is_err());
    assert!(Rps::try_from_string("rock!".to_string()).is_err());
}

#[test]
fn rps_defeats_follows_the_cycle() {
    assert_eq!(Rps::Rock.defeats(&Rps::Scissors), Ordering::Greater);
    assert_eq!(Rps::Paper.defeats(&Rps::Rock), Ordering::Greater);
    assert_eq!(Rps::Scissors.defeats(&Rps::Paper), Ordering::Greater);
    assert_eq!(Rps::Scissors.defeats(&Rps::Rock), Ordering::Less);
    assert_eq!(Rps::Rock.defeats(&Rps::Paper), Ordering::Less);
    assert_eq!(Rps::Paper.defeats(&Rps::Scissors), Ordering::Less);
    assert_eq!(Rps::Rock.defeats(&Rps::Rock), Ordering::Equal);
    assert_eq!(Rps::Paper.defeats(&Rps::Paper), Ordering::Equal);
    assert_eq!(Rps::Scissors.defeats(&Rps::Scissors), Ordering::Equal);
}

#[test]
fn item_signs_and_dice_counts() {
    let n = Item::Number { positive: true, number: 3 };
    assert!(n.positive());
    assert_eq!(n.dice_count(), 1);
    let d = Item::Dices { positive: false, amount: 4, sides: 6 };
    assert!(!d.positive());
    assert_eq!(d.dice_count(), 4);
}

#[test]
fn help_lists_the_commands() {
    let t = help::text();
    assert!(t.contains("!botto"));
    assert!(t.contains("!coinflip"));
    assert!(t.contains("!nominate"));
    assert!(t.contains("!r d6"));
    assert!(t.contains("!reminder 10 minutes: Check the oven"));
    assert!(t.contains("!reminders - list all reminders"));
    assert!(t.contains("!deleteReminder 3"));
    assert!(t.contains("!deleteAllReminders"));
    assert!(t.contains("\u{1f517} Bot's source code: \nhttps://github.com/jflessau/botto"));
}
