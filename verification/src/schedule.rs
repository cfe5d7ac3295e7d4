//! The reminder scheduler: persisted reminder rows, the room commands
//! (create, list, delete by index, delete all) and the due-check pass that
//! fires due reminders and reschedules or exhausts them.
//!
//! Timestamps are seconds since the Unix epoch. The store holds the rows in
//! creation order under strictly increasing, never reused ids.
use vstd::prelude::*;
use vstd::pervasive::VecAdditionalExecFns;
use vstd::string::StringExecFns;

use crate::IntervalUnit;
use crate::chars::{CharClass, run_end, scan_run, digits_val, parse_digits, str_eq, chars_vec,
    u64_digits, string_from_chars};
use crate::parse::{ReminderSpec, ReminderSpecModel, spec_parse, parse,
    lemma_spec_parse_wf};
use crate::render::{spec_render, render_spec, spec_hint_text, hint_text, spec_created_text,
    spec_deleted_text, spec_notify_text, notify_text, no_reminders_text,
    spec_all_deleted_text, all_deleted_text, spec_list_line, spec_list_lines, spec_list_text};

verus! {

impl ReminderSpecModel {
    /// The largest interval a draw may yield: the explicit maximum, or the
    /// minimum itself when the interval is fixed.
    pub open spec fn max_draw(self) -> u64 {
        match self.max_interval {
            Some(m) => m,
            None => self.min_interval,
        }
    }
}

/// One persisted reminder row, in the mathematical model.
pub struct ReminderModel {
    pub id: u64,
    pub room_id: Seq<char>,
    pub title: Seq<char>,
    pub interval_unit: IntervalUnit,
    pub min_interval: u64,
    pub max_interval: Option<u64>,
    pub recurring: bool,
    pub last_sent_at: Option<i64>,
    pub next_send_at: Option<i64>,
}

impl ReminderModel {
    /// The specification fields this row was created from.
    pub open spec fn spec_of(self) -> ReminderSpecModel {
        ReminderSpecModel {
            recurring: self.recurring,
            interval_unit: self.interval_unit,
            min_interval: self.min_interval,
            max_interval: self.max_interval,
            title: self.title,
        }
    }

    /// Validity of one row.
    pub open spec fn wf(self) -> bool {
        self.spec_of().wf()
    }

    /// Due: scheduled to fire, and the scheduled moment lies in the past.
    pub open spec fn is_due(self, now: i64) -> bool {
        match self.next_send_at {
            Some(t) => t < now,
            None => false,
        }
    }

    /// The largest interval the row may draw.
    pub open spec fn max_draw(self) -> u64 {
        self.spec_of().max_draw()
    }

    /// The fields that never change after creation.
    pub open spec fn same_core(self, other: Self) -> bool {
        &&& self.id == other.id
        &&& self.room_id == other.room_id
        &&& self.title == other.title
        &&& self.interval_unit == other.interval_unit
        &&& self.min_interval == other.min_interval
        &&& self.max_interval == other.max_interval
        &&& self.recurring == other.recurring
    }
}

/// One persisted reminder row.
#[derive(Debug)]
pub struct Reminder {
    pub id: u64,
    pub room_id: String,
    pub title: String,
    pub interval_unit: IntervalUnit,
    pub min_interval: u64,
    pub max_interval: Option<u64>,
    pub recurring: bool,
    pub last_sent_at: Option<i64>,
    pub next_send_at: Option<i64>,
}

impl View for Reminder {
    type V = ReminderModel;

    open spec fn view(&self) -> ReminderModel {
        ReminderModel {
            id: self.id,
            room_id: self.room_id@,
            title: self.title@,
            interval_unit: self.interval_unit,
            min_interval: self.min_interval,
            max_interval: self.max_interval,
            recurring: self.recurring,
            last_sent_at: self.last_sent_at,
            next_send_at: self.next_send_at,
        }
    }
}

/// When a reminder fires next: `now` plus the drawn interval converted to
/// seconds, capped at the largest representable timestamp.
pub open spec fn sched_at(now: i64, drawn: u64, unit: IntervalUnit) -> i64 {
    if now + drawn * unit.spec_seconds() > i64::MAX {
        i64::MAX
    } else {
        (now + drawn * unit.spec_seconds()) as i64
    }
}

/// A freshly scheduled next fire lies at or after `now`, and strictly after
/// whenever at least one unit was drawn and the clock can still advance.
pub proof fn lemma_sched_at_future(now: i64, drawn: u64, unit: IntervalUnit)
    ensures
        sched_at(now, drawn, unit) >= now,
        drawn >= 1 && now < i64::MAX ==> sched_at(now, drawn, unit) > now,
{
    assert(unit.spec_seconds() >= 60);
    if drawn >= 1 {
        assert(drawn * unit.spec_seconds() >= 1 * 60) by (nonlinear_arith)
            requires
                drawn >= 1,
                unit.spec_seconds() >= 60,
        ;
    } else {
        assert(drawn * unit.spec_seconds() == 0);
    }
}

fn compute_next(now: i64, drawn: u64, unit: IntervalUnit) -> (t: i64)
    ensures
        t == sched_at(now, drawn, unit),
{
    let secs: u128 = unit.seconds() as u128;
    let prod: u128 = (drawn as u128) * secs;
    proof {
        assert(prod <= (u64::MAX as u128) * 86400) by (nonlinear_arith)
            requires
                prod == (drawn as u128) * secs,
                drawn as u128 <= u64::MAX as u128,
                secs <= 86400,
        ;
    }
    let sum: i128 = (now as i128) + (prod as i128);
    if sum > (i64::MAX as i128) {
        i64::MAX
    } else {
        sum as i64
    }
}

/// Relies on rand's `Rng::gen_range` on the thread-local generator: a
/// uniformly distributed integer within the inclusive range; it panics only
/// on an empty range, which the precondition rules out.
#[verifier::external_body]
fn rand_range_inclusive(lo: u64, hi: u64) -> (r: u64)
    requires
        lo <= hi,
    ensures
        lo <= r <= hi,
{
    rand::Rng::gen_range(&mut rand::thread_rng(), lo..=hi)
}

/// Draws an interval: uniform over `[min, max]` when a maximum is present,
/// else exactly `min`.
pub fn draw_interval(min: u64, max: Option<u64>) -> (r: u64)
    requires
        max matches Some(m) ==> m >= min,
    ensures
        min <= r,
        match max {
            Some(m) => r <= m,
            None => r == min,
        },
{
    match max {
        Some(m) => rand_range_inclusive(min, m),
        None => min,
    }
}

/// The row a freshly created reminder persists as: timing fields start with
/// no fire yet recorded and the first fire scheduled `drawn` units from now.
pub open spec fn new_row(
    m: ReminderSpecModel,
    room: Seq<char>,
    id: u64,
    now: i64,
    drawn: u64,
) -> ReminderModel {
    ReminderModel {
        id,
        room_id: room,
        title: m.title,
        interval_unit: m.interval_unit,
        min_interval: m.min_interval,
        max_interval: m.max_interval,
        recurring: m.recurring,
        last_sent_at: None,
        next_send_at: Some(sched_at(now, drawn, m.interval_unit)),
    }
}

/// The mathematical model of the reminder store.
pub struct StoreModel {
    /// All rows, in creation order.
    pub rows: Seq<ReminderModel>,
    /// The id the next created reminder receives.
    pub next_id: u64,
}

impl StoreModel {
    /// Store invariant: every row is valid, ids strictly increase in
    /// creation order (so they are unique), and all stay below the next id
    /// to assign (so ids are never reused).
    pub open spec fn wf(self) -> bool {
        &&& forall|i: int| 0 <= i < self.rows.len() ==> (#[trigger] self.rows[i]).wf()
        &&& forall|i: int| 0 <= i < self.rows.len() ==> (#[trigger] self.rows[i]).id < self.next_id
        &&& forall|i: int, j: int|
            0 <= i < j < self.rows.len() ==> self.rows[i].id < self.rows[j].id
    }

    /// The rows of one room, in creation order.
    pub open spec fn room_rows(self, room: Seq<char>) -> Seq<ReminderModel> {
        self.rows.filter(|r: ReminderModel| r.room_id == room)
    }

    /// The specifications of one room's rows, in creation order.
    pub open spec fn room_entries(self, room: Seq<char>) -> Seq<ReminderSpecModel> {
        self.room_rows(room).map_values(|r: ReminderModel| r.spec_of())
    }
}

/// The in-memory reminder store: one row per scheduled reminder, in
/// creation order.
pub struct ReminderStore {
    rows: Vec<Reminder>,
    next_id: u64,
}

impl View for ReminderStore {
    type V = StoreModel;

    closed spec fn view(&self) -> StoreModel {
        StoreModel { rows: self.rows@.map(|i: int, r: Reminder| r@), next_id: self.next_id }
    }
}

impl ReminderStore {
    /// An empty store.
    pub fn new() -> (s: Self)
        ensures
            s@.rows =~= Seq::<ReminderModel>::empty(),
            s@.next_id == 0,
            s@.wf(),
    {
        ReminderStore { rows: Vec::new(), next_id: 0 }
    }

    /// The id the next created reminder will receive; also the number of
    /// reminders ever created.
    pub fn next_id(&self) -> (id: u64)
        ensures
            id == self@.next_id,
    {
        self.next_id
    }

    /// Creates a reminder from a parsed specification with the interval
    /// `drawn` already chosen: persists a new row at the end, under a fresh
    /// id, with no fire recorded and the first fire `drawn` units from
    /// `now`.
    pub fn create_drawn(&mut self, room_id: &str, spec: &ReminderSpec, now: i64, drawn: u64) -> (id:
        u64)
        requires
            old(self)@.wf(),
            old(self)@.next_id < u64::MAX,
            spec@.wf(),
            spec@.min_interval <= drawn <= spec@.max_draw(),
        ensures
            final(self)@.wf(),
            id == old(self)@.next_id,
            final(self)@.next_id == old(self)@.next_id + 1,
            final(self)@.rows == old(self)@.rows.push(new_row(spec@, room_id@, id, now, drawn)),
    {
        let id = self.next_id;
        let next = compute_next(now, drawn, spec.interval_unit);
        let row = Reminder {
            id,
            room_id: room_id.to_owned(),
            title: spec.title.clone(),
            interval_unit: spec.interval_unit,
            min_interval: spec.min_interval,
            max_interval: spec.max_interval,
            recurring: spec.recurring,
            last_sent_at: None,
            next_send_at: Some(next),
        };
        proof {
            assert(row@ == new_row(spec@, room_id@, id, now, drawn));
        }
        self.rows.push(row);
        self.next_id = self.next_id + 1;
        proof {
            assert(self@.rows =~= old(self)@.rows.push(new_row(spec@, room_id@, id, now, drawn)));
            assert forall|i: int| 0 <= i < self@.rows.len() implies (#[trigger] self@.rows[i]).wf()
                && self@.rows[i].id < self@.next_id by {
                if i < self@.rows.len() - 1 {
                    assert(self@.rows[i] == old(self)@.rows[i]);
                }
            }
        }
        id
    }

    /// Creates a reminder from a parsed specification, drawing the first
    /// interval: uniform over the range when one is present, else the fixed
    /// minimum.
    pub fn create(&mut self, room_id: &str, spec: &ReminderSpec, now: i64) -> (id: u64)
        requires
            old(self)@.wf(),
            old(self)@.next_id < u64::MAX,
            spec@.wf(),
        ensures
            final(self)@.wf(),
            id == old(self)@.next_id,
            final(self)@.next_id == old(self)@.next_id + 1,
            exists|drawn: u64|
                spec@.min_interval <= drawn <= spec@.max_draw() && final(self)@.rows == old(
                    self,
                )@.rows.push(new_row(spec@, room_id@, id, now, drawn)),
    {
        let drawn = draw_interval(spec.min_interval, spec.max_interval);
        self.create_drawn(room_id, spec, now, drawn)
    }

    /// Handles a reminder command: on a parse failure replies with the
    /// fixed hint and changes nothing; on success persists the reminder and
    /// replies with a confirmation rendering the specification.
    pub fn handle_create(&mut self, room_id: &str, text: &str, now: i64) -> (reply: String)
        requires
            old(self)@.wf(),
            old(self)@.next_id < u64::MAX,
        ensures
            final(self)@.wf(),
            match spec_parse(text@) {
                Err(_) => final(self)@ == old(self)@ && reply@ == spec_hint_text(),
                Ok(m) => {
                    &&& reply@ == spec_created_text(m)
                    &&& final(self)@.next_id == old(self)@.next_id + 1
                    &&& exists|drawn: u64|
                        m.min_interval <= drawn <= m.max_draw() && final(self)@.rows == old(
                            self,
                        )@.rows.push(new_row(m, room_id@, old(self)@.next_id, now, drawn))
                },
            },
    {
        match parse(text) {
            Err(_) => hint_text(),
            Ok(spec) => {
                proof {
                    lemma_spec_parse_wf(text@);
                }
                let rendered = render_spec(&spec);
                self.create(room_id, &spec, now);
                let mut reply = String::from_str("Reminder created: ");
                reply.append(rendered.as_str());
                proof {
                    assert(reply@ =~= spec_created_text(spec_parse(text@)->Ok_0));
                }
                reply
            },
        }
    }

    /// Replies with the room's reminders as a numbered list in creation
    /// order, or with the fixed text for a room without reminders.
    pub fn list(&self, room_id: &str) -> (reply: String)
        ensures
            reply@ == spec_list_text(self@.room_entries(room_id@)),
    {
        let ghost pred = |r: ReminderModel| r.room_id == room_id@;
        let mut lines = String::new();
        let mut count: usize = 0;
        let mut k: usize = 0;
        while k < self.rows.len()
            invariant
                k <= self.rows.len(),
                count <= k,
                pred == (|r: ReminderModel| r.room_id == room_id@),
                count == self@.rows.subrange(0, k as int).filter(pred).len(),
                lines@ == spec_list_lines(
                    self@.rows.subrange(0, k as int).filter(pred).map_values(
                        |r: ReminderModel| r.spec_of(),
                    ),
                ),
            decreases self.rows.len() - k,
        {
            let ghost prefix = self@.rows.subrange(0, k as int);
            let ghost sel = prefix.filter(pred);
            let ghost entries = sel.map_values(|r: ReminderModel| r.spec_of());
            let is_room = str_eq(self.rows[k].room_id.as_str(), room_id);
            proof {
                assert(self@.rows.subrange(0, k as int + 1) =~= prefix.push(self@.rows[k as int]));
                prefix.lemma_filter_push(self@.rows[k as int], pred);
            }
            if is_room {
                lines.append("\n");
                let num = u64_digits((count as u64) + 1);
                let num_str = string_from_chars(&num);
                lines.append(num_str.as_str());
                lines.append(". ");
                let rendered = render_reminder(&self.rows[k]);
                lines.append(rendered.as_str());
                count = count + 1;
                proof {
                    let e = self@.rows[k as int].spec_of();
                    let sel2 = sel.push(self@.rows[k as int]);
                    let entries2 = sel2.map_values(|r: ReminderModel| r.spec_of());
                    assert(entries2.drop_last() =~= entries);
                    assert(entries2.last() == e);
                    assert(spec_list_lines(entries2) == spec_list_lines(entries) + spec_list_line(
                        entries.len() as int,
                        e,
                    ));
                    assert(lines@ =~= spec_list_lines(entries) + spec_list_line(
                        entries.len() as int,
                        e,
                    ));
                }
            }
            k = k + 1;
        }
        proof {
            assert(self@.rows.subrange(0, self@.rows.len() as int) =~= self@.rows);
        }
        if count == 0 {
            proof {
                assert(self@.room_entries(room_id@).len() == 0);
            }
            no_reminders_text()
        } else {
            let mut reply = String::from_str("⏲️ Reminders:");
            reply.append(lines.as_str());
            proof {
                assert(reply@ =~= spec_list_text(self@.room_entries(room_id@)));
            }
            reply
        }
    }

    /// The room's reminders in creation order, as copies of the rows.
    pub fn room_reminders(&self, room_id: &str) -> (rs: Vec<Reminder>)
        ensures
            rs@.map(|i: int, r: Reminder| r@) == self@.room_rows(room_id@),
    {
        let ghost pred = |r: ReminderModel| r.room_id == room_id@;
        let mut rs: Vec<Reminder> = Vec::new();
        let mut k: usize = 0;
        while k < self.rows.len()
            invariant
                k <= self.rows.len(),
                pred == (|r: ReminderModel| r.room_id == room_id@),
                rs@.map(|i: int, r: Reminder| r@) == self@.rows.subrange(0, k as int).filter(pred),
            decreases self.rows.len() - k,
        {
            let ghost prefix = self@.rows.subrange(0, k as int);
            proof {
                assert(self@.rows.subrange(0, k as int + 1) =~= prefix.push(self@.rows[k as int]));
                prefix.lemma_filter_push(self@.rows[k as int], pred);
            }
            if str_eq(self.rows[k].room_id.as_str(), room_id) {
                rs.push(clone_reminder(&self.rows[k]));
                proof {
                    assert(rs@.map(|i: int, r: Reminder| r@) =~= prefix.filter(pred).push(
                        self@.rows[k as int],
                    ));
                }
            }
            k = k + 1;
        }
        proof {
            assert(self@.rows.subrange(0, self@.rows.len() as int) =~= self@.rows);
        }
        rs
    }

    /// Deletes every reminder of the room (a no-op when it has none) and
    /// replies with the fixed confirmation.
    pub fn delete_all(&mut self, room_id: &str) -> (reply: String)
        requires
            old(self)@.wf(),
        ensures
            final(self)@.wf(),
            final(self)@.next_id == old(self)@.next_id,
            final(self)@.rows == old(self)@.rows.filter(
                |r: ReminderModel| r.room_id != room_id@,
            ),
            reply@ == spec_all_deleted_text(),
    {
        let ghost keep = |r: ReminderModel| r.room_id != room_id@;
        let mut kept: Vec<Reminder> = Vec::new();
        let mut k: usize = 0;
        while k < self.rows.len()
            invariant
                k <= self.rows.len(),
                keep == (|r: ReminderModel| r.room_id != room_id@),
                kept@.map(|i: int, r: Reminder| r@) == self@.rows.subrange(0, k as int).filter(
                    keep,
                ),
            decreases self.rows.len() - k,
        {
            let ghost prefix = self@.rows.subrange(0, k as int);
            proof {
                assert(self@.rows.subrange(0, k as int + 1) =~= prefix.push(self@.rows[k as int]));
                prefix.lemma_filter_push(self@.rows[k as int], keep);
            }
            let matches_room = str_eq(self.rows[k].room_id.as_str(), room_id);
            if !matches_room {
                let copy = clone_reminder(&self.rows[k]);
                kept.push(copy);
                proof {
                    assert(kept@.map(|i: int, r: Reminder| r@) =~= prefix.filter(keep).push(
                        self@.rows[k as int],
                    ));
                }
            }
            k = k + 1;
        }
        proof {
            assert(self@.rows.subrange(0, self@.rows.len() as int) =~= self@.rows);
        }
        self.rows = kept;
        proof {
            lemma_filter_keeps_wf(old(self)@, keep);
        }
        all_deleted_text()
    }
}

/// Where the index for deleting one reminder comes from: the first run of
/// decimal digits anywhere in the command text, read as an unsigned
/// integer; absent digits or an overflowing number yield no index.
pub open spec fn spec_index_of(t: Seq<char>) -> Option<int> {
    let a = run_end(t, 0, CharClass::NonDigit);
    let b = run_end(t, a, CharClass::Digit);
    if a == t.len() {
        None
    } else if digits_val(t.subrange(a, b)) > u64::MAX {
        None
    } else {
        Some(digits_val(t.subrange(a, b)))
    }
}

impl ReminderStore {
    /// Deletes the reminder the command text points at: the first number in
    /// the text is a 1-based index into the room's reminders in creation
    /// order. Replies with a confirmation; when the text holds no number or
    /// the index is out of range (0, or past the room's count), nothing
    /// changes and there is no reply.
    pub fn delete(&mut self, room_id: &str, text: &str) -> (reply: Option<String>)
        requires
            old(self)@.wf(),
        ensures
            final(self)@.wf(),
            final(self)@.next_id == old(self)@.next_id,
            match spec_index_of(text@) {
                None => final(self)@ == old(self)@ && reply is None,
                Some(idx) => {
                    let room = old(self)@.room_rows(room_id@);
                    if idx == 0 || idx > room.len() {
                        final(self)@ == old(self)@ && reply is None
                    } else {
                        &&& final(self)@.room_rows(room_id@) == room.remove(idx - 1)
                        &&& (forall|other: Seq<char>|
                            other != room_id@ ==> final(self)@.room_rows(other) == old(
                                self,
                            )@.room_rows(other))
                        &&& final(self)@.rows.len() == old(self)@.rows.len() - 1
                        &&& reply matches Some(s) && s@ == spec_deleted_text(
                            room[idx - 1].spec_of(),
                        )
                    }
                },
            },
    {
        let t = chars_vec(text);
        let a = scan_run(&t, 0, CharClass::NonDigit);
        if a == t.len() {
            return None;
        }
        let b = scan_run(&t, a, CharClass::Digit);
        proof {
            crate::chars::lemma_run_end(t@, a as int, CharClass::Digit);
        }
        let idx: u64 = match parse_digits(&t, a, b) {
            Some(n) => n,
            None => {
                return None;
            },
        };
        if idx == 0 {
            return None;
        }
        let ghost pred = |r: ReminderModel| r.room_id == room_id@;
        let mut count: u64 = 0;
        let mut k: usize = 0;
        while k < self.rows.len()
            invariant
                old(self)@.wf(),
                self == old(self),
                k <= self.rows.len(),
                idx >= 1,
                count <= idx - 1,
                spec_index_of(text@) == Some(idx as int),
                pred == (|r: ReminderModel| r.room_id == room_id@),
                count == self@.rows.subrange(0, k as int).filter(pred).len(),
            decreases self.rows.len() - k,
        {
            let ghost rows = self@.rows;
            let ghost prefix = rows.subrange(0, k as int);
            proof {
                assert(rows.subrange(0, k as int + 1) =~= prefix.push(rows[k as int]));
                prefix.lemma_filter_push(rows[k as int], pred);
            }
            if str_eq(self.rows[k].room_id.as_str(), room_id) {
                if count == idx - 1 {
                    let rendered = render_reminder(&self.rows[k]);
                    let mut reply = String::from_str("Reminder deleted: ");
                    reply.append(rendered.as_str());
                    let _removed = self.rows.remove(k);
                    proof {
                        lemma_delete_at(old(self)@, k as int, room_id@, idx as int);
                        assert(self@.rows =~= old(self)@.rows.remove(k as int));
                        assert(reply@ =~= spec_deleted_text(
                            old(self)@.room_rows(room_id@)[idx - 1].spec_of(),
                        ));
                    }
                    return Some(reply);
                }
                count = count + 1;
            }
            k = k + 1;
        }
        proof {
            assert(self@.rows.subrange(0, self@.rows.len() as int) =~= self@.rows);
            assert(old(self)@.room_rows(room_id@).len() == count);
        }
        None
    }
}

/// One notification to deliver: to which room, and what to say.
#[derive(Debug)]
pub struct Delivery {
    pub room_id: String,
    pub body: String,
}

/// The mathematical model of one notification.
pub struct DeliveryModel {
    pub room_id: Seq<char>,
    pub body: Seq<char>,
}

impl View for Delivery {
    type V = DeliveryModel;

    open spec fn view(&self) -> DeliveryModel {
        DeliveryModel { room_id: self.room_id@, body: self.body@ }
    }
}

/// The notifications one due pass sends: one per due row, in creation
/// order, carrying the reminder's title and the attention suffix.
pub open spec fn spec_deliveries(rows: Seq<ReminderModel>, now: i64) -> Seq<DeliveryModel> {
    rows.filter(|r: ReminderModel| r.is_due(now)).map_values(
        |r: ReminderModel| DeliveryModel { room_id: r.room_id, body: spec_notify_text(r.title) },
    )
}

/// How one fired row relates to what it was before the pass: the fire is
/// recorded, and the next fire is either rescheduled by a drawn interval
/// (recurring) or cleared for good (one-shot).
pub open spec fn fired_from(f: ReminderModel, r: ReminderModel, now: i64) -> bool {
    &&& f.same_core(r)
    &&& f.last_sent_at == Some(now)
    &&& (!r.recurring ==> f.next_send_at is None)
    &&& (r.recurring ==> exists|drawn: u64|
        r.min_interval <= drawn <= r.max_draw() && f.next_send_at == Some(
            sched_at(now, drawn, r.interval_unit),
        ))
}

impl ReminderStore {
    /// One pass of the due-check loop at time `now`: every due reminder is
    /// fired exactly once. A fired recurring reminder is rescheduled to a
    /// fresh drawn interval from `now`, never earlier than `now` and
    /// strictly in the future whenever its minimum interval is at least one
    /// unit (and the clock can still advance); a fired one-shot reminder is
    /// exhausted, keeping its row with no next fire, so no later pass sees
    /// it due again. Rows that are not due do not change. Returns the
    /// notifications to deliver, one per due reminder, in creation order.
    ///
    /// This pass fires every due reminder; a driver that must first resolve
    /// each destination, and skip firing where resolution fails so the next
    /// pass retries the occurrence, queries [`Self::due_reminders`] and
    /// calls [`Self::fire`] per resolved reminder instead.
    pub fn process_due(&mut self, now: i64) -> (deliveries: Vec<Delivery>)
        requires
            old(self)@.wf(),
        ensures
            final(self)@.wf(),
            final(self)@.next_id == old(self)@.next_id,
            final(self)@.rows.len() == old(self)@.rows.len(),
            forall|i: int|
                0 <= i < old(self)@.rows.len() && !(#[trigger] old(self)@.rows[i]).is_due(now)
                    ==> final(self)@.rows[i] == old(self)@.rows[i],
            forall|i: int|
                0 <= i < old(self)@.rows.len() && (#[trigger] old(self)@.rows[i]).is_due(now)
                    ==> fired_from(final(self)@.rows[i], old(self)@.rows[i], now),
            forall|i: int|
                0 <= i < old(self)@.rows.len() && (#[trigger] old(self)@.rows[i]).is_due(now)
                    && old(self)@.rows[i].recurring ==> {
                    &&& final(self)@.rows[i].next_send_at matches Some(t) && t >= now
                    &&& (old(self)@.rows[i].min_interval >= 1 && now < i64::MAX
                        ==> (final(self)@.rows[i].next_send_at matches Some(t2) && t2 > now))
                },
            deliveries@.map_values(|d: Delivery| d@) == spec_deliveries(old(self)@.rows, now),
    {
        let ghost due_pred = |r: ReminderModel| r.is_due(now);
        let mut deliveries: Vec<Delivery> = Vec::new();
        let mut k: usize = 0;
        while k < self.rows.len()
            invariant
                old(self)@.wf(),
                k <= self.rows.len(),
                self@.rows.len() == old(self)@.rows.len(),
                self@.next_id == old(self)@.next_id,
                due_pred == (|r: ReminderModel| r.is_due(now)),
                forall|i: int| k <= i < self@.rows.len() ==> self@.rows[i] == old(self)@.rows[i],
                forall|i: int|
                    0 <= i < k && !(#[trigger] old(self)@.rows[i]).is_due(now) ==> self@.rows[i]
                        == old(self)@.rows[i],
                forall|i: int|
                    0 <= i < k && (#[trigger] old(self)@.rows[i]).is_due(now) ==> fired_from(
                        self@.rows[i],
                        old(self)@.rows[i],
                        now,
                    ),
                forall|i: int|
                    0 <= i < k && (#[trigger] old(self)@.rows[i]).is_due(now) && old(
                        self,
                    )@.rows[i].recurring ==> {
                        &&& self@.rows[i].next_send_at matches Some(t) && t >= now
                        &&& (old(self)@.rows[i].min_interval >= 1 && now < i64::MAX
                            ==> (self@.rows[i].next_send_at matches Some(t2) && t2 > now))
                    },
                deliveries@.map_values(|d: Delivery| d@) == spec_deliveries(
                    old(self)@.rows.subrange(0, k as int),
                    now,
                ),
            decreases self.rows.len() - k,
        {
            let ghost old_rows = old(self)@.rows;
            let ghost prefix = old_rows.subrange(0, k as int);
            proof {
                assert(old_rows.subrange(0, k as int + 1) =~= prefix.push(old_rows[k as int]));
                prefix.lemma_filter_push(old_rows[k as int], due_pred);
            }
            let due = match self.rows[k].next_send_at {
                Some(t) => t < now,
                None => false,
            };
            if due {
                let drawn = draw_interval(self.rows[k].min_interval, self.rows[k].max_interval);
                let next: Option<i64> = if self.rows[k].recurring {
                    Some(compute_next(now, drawn, self.rows[k].interval_unit))
                } else {
                    None
                };
                proof {
                    lemma_sched_at_future(now, drawn, old_rows[k as int].interval_unit);
                }
                let updated = Reminder {
                    id: self.rows[k].id,
                    room_id: self.rows[k].room_id.clone(),
                    title: self.rows[k].title.clone(),
                    interval_unit: self.rows[k].interval_unit,
                    min_interval: self.rows[k].min_interval,
                    max_interval: self.rows[k].max_interval,
                    recurring: self.rows[k].recurring,
                    last_sent_at: Some(now),
                    next_send_at: next,
                };
                let notice = Delivery {
                    room_id: self.rows[k].room_id.clone(),
                    body: notify_text(self.rows[k].title.as_str()),
                };
                let ghost old_deliveries = deliveries@;
                deliveries.push(notice);
                self.rows.set(k, updated);
                proof {
                    assert(deliveries@.map_values(|d: Delivery| d@) =~= old_deliveries.map_values(
                        |d: Delivery| d@,
                    ).push(notice@));
                    assert(spec_deliveries(old_rows.subrange(0, k as int + 1), now)
                        =~= spec_deliveries(prefix, now).push(notice@));
                }
            }
            k = k + 1;
        }
        proof {
            assert(old(self)@.rows.subrange(0, old(self)@.rows.len() as int) =~= old(self)@.rows);
            assert forall|i: int, j: int|
                0 <= i < j < self@.rows.len() implies self@.rows[i].id < self@.rows[j].id by {
                assert(self@.rows[i].id == old(self)@.rows[i].id);
                assert(self@.rows[j].id == old(self)@.rows[j].id);
            }
            assert forall|i: int| 0 <= i < self@.rows.len() implies (#[trigger] self@.rows[i]).wf()
                && self@.rows[i].id < self@.next_id by {
                assert(old(self)@.rows[i].wf());
            }
        }
        deliveries
    }
}

impl ReminderStore {
    /// The due reminders at `now`, in creation order, as copies of the
    /// rows: those scheduled to fire whose moment has passed.
    pub fn due_reminders(&self, now: i64) -> (rs: Vec<Reminder>)
        ensures
            rs@.map(|i: int, r: Reminder| r@) == self@.rows.filter(
                |r: ReminderModel| r.is_due(now),
            ),
    {
        let ghost pred = |r: ReminderModel| r.is_due(now);
        let mut rs: Vec<Reminder> = Vec::new();
        let mut k: usize = 0;
        while k < self.rows.len()
            invariant
                k <= self.rows.len(),
                pred == (|r: ReminderModel| r.is_due(now)),
                rs@.map(|i: int, r: Reminder| r@) == self@.rows.subrange(0, k as int).filter(pred),
            decreases self.rows.len() - k,
        {
            let ghost prefix = self@.rows.subrange(0, k as int);
            proof {
                assert(self@.rows.subrange(0, k as int + 1) =~= prefix.push(self@.rows[k as int]));
                prefix.lemma_filter_push(self@.rows[k as int], pred);
            }
            let due = match self.rows[k].next_send_at {
                Some(t) => t < now,
                None => false,
            };
            if due {
                rs.push(clone_reminder(&self.rows[k]));
                proof {
                    assert(rs@.map(|i: int, r: Reminder| r@) =~= prefix.filter(pred).push(
                        self@.rows[k as int],
                    ));
                }
            }
            k = k + 1;
        }
        proof {
            assert(self@.rows.subrange(0, self@.rows.len() as int) =~= self@.rows);
        }
        rs
    }

    /// Fires the one due reminder with the given id, once its destination
    /// has been resolved: records the fire and reschedules or exhausts it
    /// (as [`fired_from`] states), leaves every other row unchanged, and
    /// returns its notification. When no row carries the id, or the row is
    /// not due at `now`, nothing changes and nothing is delivered — an
    /// occurrence skipped before this call, say because its room did not
    /// resolve, keeps its schedule and is found due again by the next pass.
    pub fn fire(&mut self, id: u64, now: i64) -> (r: Option<Delivery>)
        requires
            old(self)@.wf(),
        ensures
            final(self)@.wf(),
            final(self)@.next_id == old(self)@.next_id,
            final(self)@.rows.len() == old(self)@.rows.len(),
            r is Some <==> exists|i: int|
                0 <= i < old(self)@.rows.len() && (#[trigger] old(self)@.rows[i]).id == id && old(
                    self,
                )@.rows[i].is_due(now),
            forall|i: int|
                0 <= i < old(self)@.rows.len() && !((#[trigger] old(self)@.rows[i]).id == id && old(
                    self,
                )@.rows[i].is_due(now)) ==> final(self)@.rows[i] == old(self)@.rows[i],
            forall|i: int|
                0 <= i < old(self)@.rows.len() && (#[trigger] old(self)@.rows[i]).id == id && old(
                    self,
                )@.rows[i].is_due(now) ==> fired_from(final(self)@.rows[i], old(self)@.rows[i], now)
                    && (r matches Some(d) && d@.room_id == old(self)@.rows[i].room_id && d@.body
                    == spec_notify_text(old(self)@.rows[i].title)),
    {
        let mut k: usize = 0;
        while k < self.rows.len()
            invariant
                old(self)@.wf(),
                self == old(self),
                k <= self.rows.len(),
                forall|j: int| 0 <= j < k ==> (#[trigger] old(self)@.rows[j]).id != id,
            decreases self.rows.len() - k,
        {
            if self.rows[k].id == id {
                proof {
                    lemma_unique_id(old(self)@, k as int, id);
                }
                let due = match self.rows[k].next_send_at {
                    Some(t) => t < now,
                    None => false,
                };
                if !due {
                    return None;
                }
                let drawn = draw_interval(self.rows[k].min_interval, self.rows[k].max_interval);
                let next: Option<i64> = if self.rows[k].recurring {
                    Some(compute_next(now, drawn, self.rows[k].interval_unit))
                } else {
                    None
                };
                let updated = Reminder {
                    id: self.rows[k].id,
                    room_id: self.rows[k].room_id.clone(),
                    title: self.rows[k].title.clone(),
                    interval_unit: self.rows[k].interval_unit,
                    min_interval: self.rows[k].min_interval,
                    max_interval: self.rows[k].max_interval,
                    recurring: self.rows[k].recurring,
                    last_sent_at: Some(now),
                    next_send_at: next,
                };
                let notice = Delivery {
                    room_id: self.rows[k].room_id.clone(),
                    body: notify_text(self.rows[k].title.as_str()),
                };
                self.rows.set(k, updated);
                proof {
                    assert(self@.rows =~= old(self)@.rows.update(k as int, updated@));
                    assert forall|i: int| 0 <= i < self@.rows.len() implies (#[trigger] self@.rows[i]).wf()
                        && self@.rows[i].id < self@.next_id by {
                        assert(old(self)@.rows[i].wf());
                    }
                    assert forall|i: int, j: int|
                        0 <= i < j < self@.rows.len() implies self@.rows[i].id
                        < self@.rows[j].id by {
                        assert(self@.rows[i].id == old(self)@.rows[i].id);
                        assert(self@.rows[j].id == old(self)@.rows[j].id);
                    }
                }
                return Some(notice);
            }
            k = k + 1;
        }
        None
    }
}

/// Under the store invariant, a row's id occurs at its position alone.
proof fn lemma_unique_id(m: StoreModel, k: int, id: u64)
    requires
        m.wf(),
        0 <= k < m.rows.len(),
        m.rows[k].id == id,
    ensures
        forall|i: int| 0 <= i < m.rows.len() && i != k ==> m.rows[i].id != id,
{
    assert forall|i: int| 0 <= i < m.rows.len() && i != k implies m.rows[i].id != id by {
        if i < k {
            assert(m.rows[i].id < m.rows[k].id);
        } else {
            assert(m.rows[k].id < m.rows[i].id);
        }
    }
}

/// Splitting rows around one position splits each filtered view around it.
proof fn lemma_filter_split(
    rows: Seq<ReminderModel>,
    j: int,
    pred: spec_fn(ReminderModel) -> bool,
)
    requires
        0 <= j < rows.len(),
    ensures
        pred(rows[j]) ==> rows.filter(pred) == rows.subrange(0, j).filter(pred) + seq![rows[j]]
            + rows.subrange(j + 1, rows.len() as int).filter(pred),
        !pred(rows[j]) ==> rows.filter(pred) == rows.subrange(0, j).filter(pred) + rows.subrange(
            j + 1,
            rows.len() as int,
        ).filter(pred),
        rows.remove(j).filter(pred) == rows.subrange(0, j).filter(pred) + rows.subrange(
            j + 1,
            rows.len() as int,
        ).filter(pred),
{
    let a = rows.subrange(0, j);
    let b = rows.subrange(j + 1, rows.len() as int);
    let mid = seq![rows[j]];
    assert(rows =~= a + (mid + b));
    Seq::filter_distributes_over_add(a, mid + b, pred);
    Seq::filter_distributes_over_add(mid, b, pred);
    assert(mid =~= Seq::<ReminderModel>::empty().push(rows[j]));
    Seq::<ReminderModel>::empty().lemma_filter_push(rows[j], pred);
    assert(Seq::<ReminderModel>::empty().filter(pred) =~= Seq::<ReminderModel>::empty()) by {
        Seq::<ReminderModel>::empty().lemma_filter_len(pred);
    }
    assert(rows.remove(j) =~= a + b);
    Seq::filter_distributes_over_add(a, b, pred);
    if pred(rows[j]) {
        assert(rows.filter(pred) =~= a.filter(pred) + seq![rows[j]] + b.filter(pred));
    } else {
        assert(rows.filter(pred) =~= a.filter(pred) + b.filter(pred));
    }
}

/// Removing the row at `j` removes exactly the matching position from its
/// room's view, leaves every other room's view unchanged, and keeps the
/// store invariant.
proof fn lemma_delete_at(m: StoreModel, j: int, room: Seq<char>, idx: int)
    requires
        m.wf(),
        0 <= j < m.rows.len(),
        m.rows[j].room_id == room,
        idx >= 1,
        m.rows.subrange(0, j).filter(|r: ReminderModel| r.room_id == room).len() == idx - 1,
    ensures
        1 <= idx <= m.room_rows(room).len(),
        m.room_rows(room)[idx - 1] == m.rows[j],
        (StoreModel { rows: m.rows.remove(j), next_id: m.next_id }).wf(),
        (StoreModel { rows: m.rows.remove(j), next_id: m.next_id }).room_rows(room)
            == m.room_rows(room).remove(idx - 1),
        forall|other: Seq<char>|
            other != room ==> (StoreModel { rows: m.rows.remove(j), next_id: m.next_id }).room_rows(
                other,
            ) == m.room_rows(other),
{
    let pred = |r: ReminderModel| r.room_id == room;
    let rows = m.rows;
    lemma_filter_split(rows, j, pred);
    let fa = rows.subrange(0, j).filter(pred);
    let fb = rows.subrange(j + 1, rows.len() as int).filter(pred);
    assert(m.room_rows(room) == fa + seq![rows[j]] + fb);
    assert(m.room_rows(room)[idx - 1] == rows[j]);
    assert(m.room_rows(room).remove(idx - 1) =~= fa + fb);
    let removed = rows.remove(j);
    assert(forall|i: int| 0 <= i < j ==> removed[i] == rows[i]);
    assert(forall|i: int| j <= i < removed.len() ==> removed[i] == rows[i + 1]);
    assert forall|other: Seq<char>|
        other != room implies (StoreModel { rows: removed, next_id: m.next_id }).room_rows(other)
        == m.room_rows(other) by {
        let po = |r: ReminderModel| r.room_id == other;
        lemma_filter_split(rows, j, po);
        assert(!po(rows[j]));
    }
}

/// Renders a stored reminder in the display form of its specification.
fn render_reminder(r: &Reminder) -> (s: String)
    ensures
        s@ == spec_render(r@.spec_of()),
{
    let spec = ReminderSpec {
        recurring: r.recurring,
        interval_unit: r.interval_unit,
        min_interval: r.min_interval,
        max_interval: r.max_interval,
        title: r.title.clone(),
    };
    render_spec(&spec)
}

/// An exact copy of a stored reminder row.
fn clone_reminder(r: &Reminder) -> (c: Reminder)
    ensures
        c@ == r@,
{
    Reminder {
        id: r.id,
        room_id: r.room_id.clone(),
        title: r.title.clone(),
        interval_unit: r.interval_unit,
        min_interval: r.min_interval,
        max_interval: r.max_interval,
        recurring: r.recurring,
        last_sent_at: r.last_sent_at,
        next_send_at: r.next_send_at,
    }
}

/// Every element of a filtered sequence occurs in the unfiltered one, so
/// filtering a valid store's rows keeps the store invariant.
proof fn lemma_filter_keeps_wf(m: StoreModel, pred: spec_fn(ReminderModel) -> bool)
    requires
        m.wf(),
    ensures
        (StoreModel { rows: m.rows.filter(pred), next_id: m.next_id }).wf(),
    decreases m.rows.len(),
{
    broadcast use Seq::lemma_filter_push;

    if m.rows.len() > 0 {
        let rest = m.rows.drop_last();
        let last = m.rows.last();
        assert(forall|i: int, j: int|
            0 <= i < j < rest.len() ==> rest[i].id < rest[j].id) by {
            assert(forall|i: int| 0 <= i < rest.len() ==> rest[i] == m.rows[i]);
        }
        lemma_filter_keeps_wf(StoreModel { rows: rest, next_id: m.next_id }, pred);
        assert(m.rows =~= rest.push(last));
        let fr = rest.filter(pred);
        if pred(last) {
            assert(m.rows.filter(pred) == fr.push(last));
            assert forall|i: int| 0 <= i < fr.len() implies fr[i].id < last.id by {
                fr.lemma_filter_contains_rev(pred, fr[i]);
                rest.lemma_filter_contains_rev(pred, fr[i]);
                let j = choose|j: int| 0 <= j < rest.len() && rest[j] == fr[i];
                assert(m.rows[j].id < last.id);
            }
        } else {
            assert(m.rows.filter(pred) == fr);
        }
    } else {
        assert(m.rows =~= Seq::<ReminderModel>::empty());
        assert(m.rows.filter(pred).len() == 0) by {
            m.rows.lemma_filter_len(pred);
        }
    }
}

} // verus!
