use botto::IntervalUnit;
use botto::parse::{parse, ParseError, ReminderSpec};
use botto::render::render_spec;

fn ok(text: &str) -> ReminderSpec {
    parse(text).expect("expected the reminder command to parse")
}

#[test]
fn fixed_minutes_scenario() {
    let sp = ok("!reminder 10 minutes: Check the oven");
    assert_eq!(sp.recurring, false);
    assert_eq!(sp.interval_unit, IntervalUnit::Minute);
    assert_eq!(sp.min_interval, 10);
    assert_eq!(sp.max_interval, None);
    assert_eq!(sp.title, "Check the oven");
}

#[test]
fn recurring_range_scenario() {
    let sp = ok("!reminder every 2-5 days: Clean the bathroom");
    assert_eq!(sp.recurring, true);
    assert_eq!(sp.interval_unit, IntervalUnit::Day);
    assert_eq!(sp.min_interval, 2);
    assert_eq!(sp.max_interval, Some(5));
    assert_eq!(sp.title, "Clean the bathroom");
}

#[test]
fn tolerant_grammar_accepts_many_shapes() {
    let messages = vec![
        "!reminder 1 minutes: Take out the trash.",
        "!reminder 12 minute: Take out the trash",
        "!reminder 31 M: Take out the trash",
        "!reminder 14m: Take out the trash",
        "!reminder every 1 \u{2013} 3 day: Take out the trash",
        "!reminder 1 hour: Take out the trash",
        "!reminder 13 hours: Take out the trash",
        "!reminder 1h: Take out the trash",
        "!reminder every 1 h : Take out the trash",
        "!reminder 1 day: Take out the trash",
        "!reminder 13 days: Take out the trash",
        "!reminder 1d: Take out the trash",
        "!reminder1 d: Take out the trash",
        "!reminder every 1 - 3 minutes: Take out the trash.",
        "!reminder 12-4 minute: Take out the trash",
        "!reminder 31 to 9 m: Take out the trash",
        "!reminder 14 g 9m: Take out the trash",
        "!reminder 1 until 38 hour: Take out the trash",
        "!reminder 13-3 hours: Take out the trash",
        "!reminder 1 to 388h: Take out the trash",
        "!reminder 1-4 h: Take out the trash",
        "!reminder 13 - 3 days: Take out the trash",
        "!reminder every1 -asfas \u{1f4f9} 3d: Take out the trash",
        "!reminder 1 -- to 3 d: Take out the trash",
        "!reminder 10 minutes: Check the oven.",
        "!reminder 2 hours: Laundry is done.",
        "!reminder 10 days: Mow the lawn.",
        "!reminder every 2h: Drink water.",
        "!reminder every 2-5 days: Clean the bathroom.",
        "!reminder every 30 to 60 days: Get a haircut.",
        "!reminder 10 minutes: Check the oven",
        "!reminder 2 hours: Laundry is done",
        "!reminder 10 days: Mow the lawn",
        "!reminder every 42 days: Get a haircut.",
        "!reminder 1-3d: Go to the gym",
        "!reminder 1-3d: Go to the gym every 1-3 days",
    ];
    for m in messages {
        assert!(parse(m).is_ok(), "expected this to parse: {m}");
    }
}

#[test]
fn backwards_range_collapses_to_fixed() {
    let sp = ok("!reminder 31 to 9 m: Take out the trash");
    assert_eq!(sp.min_interval, 31);
    assert_eq!(sp.max_interval, None);
    assert_eq!(sp.interval_unit, IntervalUnit::Minute);
}

#[test]
fn equal_range_collapses_to_fixed() {
    let sp = ok("!reminder 4 to 4 h: Stretch");
    assert_eq!(sp.min_interval, 4);
    assert_eq!(sp.max_interval, None);
}

#[test]
fn forward_range_is_kept() {
    let sp = ok("!reminder 1 until 38 hour: Take out the trash");
    assert_eq!(sp.min_interval, 1);
    assert_eq!(sp.max_interval, Some(38));
    assert_eq!(sp.interval_unit, IntervalUnit::Hour);
}

#[test]
fn noise_between_numbers_is_a_separator() {
    let sp = ok("!reminder 14 g 9m: Take out the trash");
    assert_eq!(sp.min_interval, 14);
    assert_eq!(sp.max_interval, None);
    assert_eq!(sp.interval_unit, IntervalUnit::Minute);
}

#[test]
fn missing_space_after_keyword() {
    let sp = ok("!reminder1 d: Take out the trash");
    assert_eq!(sp.recurring, false);
    assert_eq!(sp.min_interval, 1);
    assert_eq!(sp.interval_unit, IntervalUnit::Day);
}

#[test]
fn text_before_keyword_is_ignored() {
    let sp = ok("hello there !reminder 3h: Tea time");
    assert_eq!(sp.min_interval, 3);
    assert_eq!(sp.interval_unit, IntervalUnit::Hour);
    assert_eq!(sp.title, "Tea time");
}

#[test]
fn keyword_case_is_ignored() {
    let sp = ok("!Reminder 7 days: Water the plants");
    assert_eq!(sp.min_interval, 7);
    assert_eq!(sp.interval_unit, IntervalUnit::Day);
}

#[test]
fn unit_priority_minute_over_hour_and_day() {
    assert_eq!(ok("!reminder 5 dm: x").interval_unit, IntervalUnit::Minute);
    assert_eq!(ok("!reminder 5 hm: x").interval_unit, IntervalUnit::Minute);
    assert_eq!(ok("!reminder 5 dhm: x").interval_unit, IntervalUnit::Minute);
    assert_eq!(ok("!reminder 5 md: x").interval_unit, IntervalUnit::Minute);
}

#[test]
fn unit_priority_hour_over_day() {
    assert_eq!(ok("!reminder 5 dh: x").interval_unit, IntervalUnit::Hour);
    assert_eq!(ok("!reminder 5 hd: x").interval_unit, IntervalUnit::Hour);
    assert_eq!(ok("!reminder 5 dd: x").interval_unit, IntervalUnit::Day);
}

#[test]
fn unit_letters_any_case() {
    assert_eq!(ok("!reminder 31 M: x").interval_unit, IntervalUnit::Minute);
    assert_eq!(ok("!reminder 31 H: x").interval_unit, IntervalUnit::Hour);
    assert_eq!(ok("!reminder 31 D: x").interval_unit, IntervalUnit::Day);
    assert_eq!(ok("!reminder 31 DM: x").interval_unit, IntervalUnit::Minute);
}

#[test]
fn unit_comes_from_the_first_letter_run_after_the_numbers() {
    let sp = ok("!reminder 1 m 3 d: x");
    assert_eq!(sp.min_interval, 1);
    assert_eq!(sp.max_interval, None);
    assert_eq!(sp.interval_unit, IntervalUnit::Minute);
    let sp = ok("!reminder every1 -asfas \u{1f4f9} 3d: Take out the trash");
    assert_eq!(sp.min_interval, 1);
    assert_eq!(sp.max_interval, Some(3));
    assert_eq!(sp.interval_unit, IntervalUnit::Day);
    assert!(sp.recurring);
}

#[test]
fn marker_must_be_the_word_every() {
    assert_eq!(parse("!reminder very 5m: x").unwrap_err(), ParseError::MissingInterval);
    assert_eq!(parse("!reminder everyday 5m: x").unwrap_err(), ParseError::MissingInterval);
    assert!(ok("!reminder EVERY 5m: x").recurring);
    assert!(ok("!reminder Every5m: x").recurring);
}

#[test]
fn recurring_marker_detected() {
    assert!(ok("!reminder every 2h: Drink water").recurring);
    assert!(ok("!reminder every1 d: x").recurring);
    assert!(!ok("!reminder 2h: Drink water").recurring);
}

#[test]
fn title_is_taken_after_last_colon_with_text() {
    let sp = ok("!reminder 5 m: first: second");
    assert_eq!(sp.title, "second");
    let sp = ok("!reminder 5 m: ends with colon:");
    assert_eq!(sp.title, "ends with colon:");
}

#[test]
fn title_is_trimmed_and_capped() {
    let sp = ok("!reminder 5 m:   padded title   ");
    assert_eq!(sp.title, "padded title");
    let long = "a".repeat(250);
    let sp = ok(&format!("!reminder 5 m: {long}"));
    assert_eq!(sp.title.len(), 199);
    assert_eq!(sp.title, "a".repeat(199));
}

#[test]
fn error_missing_interval() {
    assert_eq!(parse("!reminder m: x").unwrap_err(), ParseError::MissingInterval);
    assert_eq!(parse("!reminder every d: x").unwrap_err(), ParseError::MissingInterval);
}

#[test]
fn error_interval_too_large() {
    assert_eq!(
        parse("!reminder 99999999999999999999m: x").unwrap_err(),
        ParseError::IntervalTooLarge
    );
    let max = u64::MAX;
    let sp = ok(&format!("!reminder {max}m: x"));
    assert_eq!(sp.min_interval, u64::MAX);
}

#[test]
fn error_invalid_unit() {
    assert_eq!(parse("!reminder 5: x").unwrap_err(), ParseError::InvalidUnit);
    assert_eq!(parse("!reminder 5 weeks: x").unwrap_err(), ParseError::InvalidUnit);
}

#[test]
fn error_missing_colon() {
    assert_eq!(parse("!reminder 5m x").unwrap_err(), ParseError::MissingColon);
    assert_eq!(parse("!reminder 5m:").unwrap_err(), ParseError::MissingColon);
}

#[test]
fn error_empty_title() {
    assert_eq!(parse("!reminder 5m:  ").unwrap_err(), ParseError::EmptyTitle);
}

#[test]
fn overflowing_max_collapses_to_fixed() {
    let sp = ok("!reminder 5 to 99999999999999999999 m: x");
    assert_eq!(sp.min_interval, 5);
    assert_eq!(sp.max_interval, None);
}

#[test]
fn render_fixed_singular_and_plural() {
    let sp = ok("!reminder 1 minutes: Take out the trash");
    assert_eq!(render_spec(&sp), "1 minute: Take out the trash");
    let sp = ok("!reminder 10 minutes: Check the oven");
    assert_eq!(render_spec(&sp), "10 minutes: Check the oven");
}

#[test]
fn render_recurring_and_ranged() {
    let sp = ok("!reminder every 42 days: Get a haircut.");
    assert_eq!(render_spec(&sp), "every 42 days: Get a haircut.");
    let sp = ok("!reminder every 2-5 days: Clean the bathroom");
    assert_eq!(render_spec(&sp), "every 2 - 5 days: Clean the bathroom");
}

#[test]
fn round_trip_fixed_specs() {
    let texts = [
        "10 minutes: Check the oven",
        "every 42 days: Get a haircut.",
        "1 hour: Laundry",
        "every 1 minute: Drink water",
        "0 days: Odd but allowed",
    ];
    for t in texts {
        let first = parse(t).expect("first parse");
        let rendered = render_spec(&first);
        assert_eq!(rendered, *t, "display form is canonical for {t}");
        let second = parse(&rendered).expect("second parse");
        assert_eq!(second.recurring, first.recurring);
        assert_eq!(second.interval_unit, first.interval_unit);
        assert_eq!(second.min_interval, first.min_interval);
        assert_eq!(second.max_interval, first.max_interval);
        assert_eq!(second.title, first.title);
    }
}
