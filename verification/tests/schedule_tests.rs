use botto::parse::ReminderSpec;
use botto::schedule::{draw_interval, ReminderStore};
use botto::IntervalUnit;

const ROOM: &str = "!WBGmhYXnxVfSYOoHua:example.org";
const OTHER_ROOM: &str = "!otherroom:example.org";

const HINT: &str = "Sorry, I don't know how to parse that reminder.\nUse the !botto command to get some hints.";
const NO_REMINDERS: &str = "No reminders found. Create one with e.g.\n\n!reminder 2 days: Take out the trash.\n\nOr use the !botto command to get more info.";

#[test]
fn create_confirms_with_rendered_spec() {
    let mut store = ReminderStore::new();
    let reply = store.handle_create(ROOM, "!reminder 10 minutes: Check the oven", 1_000);
    assert_eq!(reply, "Reminder created: 10 minutes: Check the oven");
}

#[test]
fn create_replies_with_hint_on_parse_failure() {
    let mut store = ReminderStore::new();
    let reply = store.handle_create(ROOM, "!reminder soon: do things", 1_000);
    assert_eq!(reply, HINT);
    assert_eq!(store.list(ROOM), NO_REMINDERS);
}

#[test]
fn fresh_reminder_is_scheduled_one_interval_out() {
    let mut store = ReminderStore::new();
    store.handle_create(ROOM, "!reminder 10 minutes: Check the oven", 1_000);
    let rows = store.room_reminders(ROOM);
    assert_eq!(rows.len(), 1);
    assert_eq!(rows[0].title, "Check the oven");
    assert_eq!(rows[0].last_sent_at, None);
    assert_eq!(rows[0].next_send_at, Some(1_000 + 10 * 60));
}

#[test]
fn list_numbers_reminders_in_creation_order() {
    let mut store = ReminderStore::new();
    store.handle_create(ROOM, "!reminder 2 days: A", 0);
    store.handle_create(ROOM, "!reminder 2 days: B", 0);
    store.handle_create(ROOM, "!reminder 2 days: C", 0);
    assert_eq!(
        store.list(ROOM),
        "\u{23f2}\u{fe0f} Reminders:\n1. 2 days: A\n2. 2 days: B\n3. 2 days: C"
    );
}

#[test]
fn delete_by_index_removes_and_renumbers() {
    let mut store = ReminderStore::new();
    store.handle_create(ROOM, "!reminder 2 days: A", 0);
    store.handle_create(ROOM, "!reminder 2 days: B", 0);
    store.handle_create(ROOM, "!reminder 2 days: C", 0);
    let reply = store.delete(ROOM, "delete 2");
    assert_eq!(reply, Some("Reminder deleted: 2 days: B".to_string()));
    assert_eq!(
        store.list(ROOM),
        "\u{23f2}\u{fe0f} Reminders:\n1. 2 days: A\n2. 2 days: C"
    );
}

#[test]
fn delete_out_of_range_is_silent_and_keeps_rows() {
    let mut store = ReminderStore::new();
    store.handle_create(ROOM, "!reminder 2 days: A", 0);
    store.handle_create(ROOM, "!reminder 2 days: B", 0);
    let before = store.list(ROOM);
    assert_eq!(store.delete(ROOM, "delete 0"), None);
    assert_eq!(store.delete(ROOM, "delete 3"), None);
    assert_eq!(store.delete(ROOM, "delete it all"), None);
    assert_eq!(store.delete(ROOM, "delete 99999999999999999999"), None);
    assert_eq!(store.list(ROOM), before);
}

#[test]
fn delete_takes_first_number_anywhere_in_text() {
    let mut store = ReminderStore::new();
    store.handle_create(ROOM, "!reminder 2 days: A", 0);
    let reply = store.delete(ROOM, "please remove no. 1 now");
    assert_eq!(reply, Some("Reminder deleted: 2 days: A".to_string()));
    assert_eq!(store.list(ROOM), NO_REMINDERS);
}

#[test]
fn delete_only_touches_the_given_room() {
    let mut store = ReminderStore::new();
    store.handle_create(ROOM, "!reminder 2 days: A", 0);
    store.handle_create(OTHER_ROOM, "!reminder 2 days: Elsewhere", 0);
    store.handle_create(ROOM, "!reminder 2 days: B", 0);
    let reply = store.delete(ROOM, "2");
    assert_eq!(reply, Some("Reminder deleted: 2 days: B".to_string()));
    assert_eq!(
        store.list(OTHER_ROOM),
        "\u{23f2}\u{fe0f} Reminders:\n1. 2 days: Elsewhere"
    );
}

#[test]
fn delete_all_empties_only_the_room() {
    let mut store = ReminderStore::new();
    store.handle_create(ROOM, "!reminder 2 days: A", 0);
    store.handle_create(ROOM, "!reminder 2 days: B", 0);
    store.handle_create(OTHER_ROOM, "!reminder 2 days: Elsewhere", 0);
    let reply = store.delete_all(ROOM);
    assert_eq!(reply, "All reminders deleted.");
    assert_eq!(store.list(ROOM), NO_REMINDERS);
    assert_eq!(
        store.list(OTHER_ROOM),
        "\u{23f2}\u{fe0f} Reminders:\n1. 2 days: Elsewhere"
    );
}

#[test]
fn delete_all_of_empty_room_still_confirms() {
    let mut store = ReminderStore::new();
    assert_eq!(store.delete_all(ROOM), "All reminders deleted.");
}

#[test]
fn nothing_due_before_its_time() {
    let mut store = ReminderStore::new();
    store.handle_create(ROOM, "!reminder 10 minutes: Check the oven", 1_000);
    let deliveries = store.process_due(1_000 + 600);
    assert_eq!(deliveries.len(), 0);
}

#[test]
fn one_shot_fires_exactly_once() {
    let mut store = ReminderStore::new();
    store.handle_create(ROOM, "!reminder 1 minutes: Check the oven", 1_000);
    let deliveries = store.process_due(1_061);
    assert_eq!(deliveries.len(), 1);
    assert_eq!(deliveries[0].room_id, ROOM);
    assert_eq!(deliveries[0].body, "Check the oven\n\u{1f514}\u{1f514}\u{1f514}");
    let rows = store.room_reminders(ROOM);
    assert_eq!(rows[0].last_sent_at, Some(1_061));
    assert_eq!(rows[0].next_send_at, None);
    assert_eq!(store.process_due(1_000_000_000).len(), 0);
}

#[test]
fn recurring_reminder_is_rescheduled_after_firing() {
    let mut store = ReminderStore::new();
    store.handle_create(ROOM, "!reminder every 1 minutes: Drink water", 1_000);
    assert_eq!(store.process_due(1_061).len(), 1);
    let rows = store.room_reminders(ROOM);
    assert_eq!(rows[0].last_sent_at, Some(1_061));
    assert_eq!(rows[0].next_send_at, Some(1_061 + 60));
    assert_eq!(store.process_due(1_121).len(), 0);
    assert_eq!(store.process_due(1_122).len(), 1);
    let rows = store.room_reminders(ROOM);
    assert_eq!(rows[0].next_send_at, Some(1_122 + 60));
}

#[test]
fn ranged_reminder_draws_within_bounds() {
    let mut store = ReminderStore::new();
    store.handle_create(ROOM, "!reminder every 2-5 days: Clean the bathroom", 0);
    let rows = store.room_reminders(ROOM);
    let next = rows[0].next_send_at.expect("scheduled");
    assert!(2 * 86_400 <= next && next <= 5 * 86_400);
    assert_eq!(store.process_due(2 * 86_400).len(), 0);
    let fired = store.process_due(5 * 86_400 + 1);
    assert_eq!(fired.len(), 1);
    let rows = store.room_reminders(ROOM);
    let now: i64 = 5 * 86_400 + 1;
    let next = rows[0].next_send_at.expect("rescheduled");
    assert!(now + 2 * 86_400 <= next && next <= now + 5 * 86_400);
}

#[test]
fn due_pass_handles_rooms_in_creation_order() {
    let mut store = ReminderStore::new();
    store.handle_create(ROOM, "!reminder 1 m: first", 0);
    store.handle_create(OTHER_ROOM, "!reminder 1 m: second", 0);
    let deliveries = store.process_due(100_000);
    assert_eq!(deliveries.len(), 2);
    assert_eq!(deliveries[0].room_id, ROOM);
    assert_eq!(deliveries[0].body, "first\n\u{1f514}\u{1f514}\u{1f514}");
    assert_eq!(deliveries[1].room_id, OTHER_ROOM);
    assert_eq!(deliveries[1].body, "second\n\u{1f514}\u{1f514}\u{1f514}");
}

#[test]
fn due_query_and_single_fire_retry_a_skipped_occurrence() {
    let mut store = ReminderStore::new();
    store.handle_create(ROOM, "!reminder 1 m: first", 0);
    store.handle_create(OTHER_ROOM, "!reminder 1 m: second", 0);
    let due = store.due_reminders(100_000);
    assert_eq!(due.len(), 2);
    // deliver only the first, as a driver does when the other room fails
    // to resolve: the skipped occurrence keeps its schedule
    let d = store.fire(due[0].id, 100_000).expect("due and known");
    assert_eq!(d.room_id, ROOM);
    assert_eq!(d.body, "first\n\u{1f514}\u{1f514}\u{1f514}");
    let retry = store.due_reminders(100_001);
    assert_eq!(retry.len(), 1);
    assert_eq!(retry[0].id, due[1].id);
    assert_eq!(retry[0].title, "second");
    let d2 = store.fire(retry[0].id, 100_001).expect("still due");
    assert_eq!(d2.room_id, OTHER_ROOM);
    assert_eq!(store.due_reminders(200_000).len(), 0);
}

#[test]
fn fire_is_silent_for_unknown_or_undue_ids() {
    let mut store = ReminderStore::new();
    store.handle_create(ROOM, "!reminder 10 m: x", 0);
    assert!(store.fire(0, 60).is_none());
    assert!(store.fire(7, 100_000).is_none());
    assert!(store.fire(0, 100_000).is_some());
}

#[test]
fn create_with_chosen_interval_schedules_exactly() {
    let spec = ReminderSpec {
        recurring: true,
        interval_unit: IntervalUnit::Day,
        min_interval: 2,
        max_interval: Some(5),
        title: "Clean the bathroom".to_string(),
    };
    let mut store = ReminderStore::new();
    let id = store.create_drawn(ROOM, &spec, 1_000, 3);
    assert_eq!(id, 0);
    let rows = store.room_reminders(ROOM);
    assert_eq!(rows[0].next_send_at, Some(1_000 + 3 * 86_400));
    assert_eq!(rows[0].last_sent_at, None);
    assert_eq!(rows[0].recurring, true);
}

#[test]
fn draw_interval_fixed_and_ranged() {
    assert_eq!(draw_interval(5, None), 5);
    assert_eq!(draw_interval(0, None), 0);
    for _ in 0..50 {
        let d = draw_interval(2, Some(5));
        assert!(2 <= d && d <= 5);
    }
}

#[test]
fn next_ids_count_creations() {
    let mut store = ReminderStore::new();
    assert_eq!(store.next_id(), 0);
    store.handle_create(ROOM, "!reminder 1 m: a", 0);
    store.handle_create(ROOM, "!reminder 1 m: b", 0);
    assert_eq!(store.next_id(), 2);
    store.delete(ROOM, "1");
    assert_eq!(store.next_id(), 2);
    let rows = store.room_reminders(ROOM);
    assert_eq!(rows.len(), 1);
    assert_eq!(rows[0].id, 1);
}
