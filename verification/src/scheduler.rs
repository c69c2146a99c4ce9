//! The reminder scheduler's decision core: given a snapshot of every
//! user's reminder set and the local clock, compute exactly which
//! (user, counter) pairs must be notified on this tick.  Dispatching the
//! notifications and re-reading the clock on a timer are the caller's
//! business; the decision itself is verified.

use vstd::prelude::*;
use chrono::{Datelike, TimeZone, Timelike};
use crate::reminder::{CounterType, CounterReminder, UserReminders, Today};

verus! {

/// The local calendar day and hour the scheduler acts on.
pub struct ClockInfo {
    pub today: Today,
    pub hour: u32,
}

impl ClockInfo {
    pub open spec fn wf(self) -> bool {
        self.today.wf() && self.hour < 24
    }
}

/// Relies on `chrono::Utc::now`, `chrono_tz::Europe::Moscow` and the
/// `Datelike`/`Timelike` accessors: the current date and hour in the
/// reference timezone, with the month (`%Y-%m`) and date (`%Y-%m-%d`)
/// tokens rendered from it.  The day of month is 1..=31 and the hour is
/// below 24, as those accessors document; nothing else is assumed of a
/// clock reading.
#[verifier::external_body]
pub fn read_moscow_clock() -> (c: ClockInfo)
    ensures
        c.wf(),
{
    let now = chrono_tz::Europe::Moscow.from_utc_datetime(&chrono::Utc::now().naive_utc());
    ClockInfo {
        today: Today {
            day: now.day(),
            month_token: now.format("%Y-%m").to_string(),
            date_token: now.format("%Y-%m-%d").to_string(),
        },
        hour: now.hour(),
    }
}

/// The hours of the local evening during which notifications go out.
pub open spec fn notify_window(hour: int) -> bool {
    19 <= hour <= 21
}

/// A configuration was already notified on the given day.
pub open spec fn sent_today(c: CounterReminder, today: Today) -> bool {
    match c.last_sent_date {
        Some(d) => d@ == today.date_token@,
        None => false,
    }
}

/// A configuration is due: the window rule fires and no notification
/// went out today.
pub open spec fn due_entry(c: CounterReminder, today: Today) -> bool {
    c.spec_should_remind(today.day as int) && !sent_today(c, today)
}

/// One notification to dispatch.
#[derive(Clone, Copy, Debug, PartialEq, Eq, Structural)]
pub struct DueReminder {
    pub chat_id: i64,
    pub counter_type: CounterType,
    pub start_day: u32,
    pub end_day: u32,
}

/// The notification a due configuration yields.
pub open spec fn make_due(u: i64, c: CounterReminder) -> DueReminder {
    DueReminder {
        chat_id: u,
        counter_type: c.counter_type,
        start_day: c.start_day,
        end_day: c.end_day,
    }
}

/// The notifications one user's configurations yield, in stored order.
pub open spec fn due_configs(u: i64, s: Seq<CounterReminder>, today: Today) -> Seq<DueReminder>
    decreases s.len(),
{
    if s.len() == 0 {
        Seq::empty()
    } else {
        due_configs(u, s.drop_last(), today) + (if due_entry(s.last(), today) {
            seq![make_due(u, s.last())]
        } else {
            Seq::empty()
        })
    }
}

/// The notifications a snapshot yields: users in snapshot order, each
/// gated by the global switch.
pub open spec fn plan_spec(entries: Seq<(i64, UserReminders)>, today: Today) -> Seq<DueReminder>
    decreases entries.len(),
{
    if entries.len() == 0 {
        Seq::empty()
    } else {
        plan_spec(entries.drop_last(), today) + (if entries.last().1.global_enabled {
            due_configs(entries.last().0, entries.last().1.reminders@, today)
        } else {
            Seq::empty()
        })
    }
}

/// Which phase of the window today falls in, deciding how the
/// notification is phrased.
#[derive(Clone, Copy, Debug, PartialEq, Eq, Structural)]
pub enum ReminderPhase {
    /// The submission period opens today.
    WindowStart,
    /// One of the last three days of the period.
    WindowClosing,
    /// A day in the middle of the period.
    WindowMiddle,
}

/// The phase a window is in on day `day`.
pub open spec fn spec_phase(start: int, end: int, day: int) -> ReminderPhase {
    if day == start {
        ReminderPhase::WindowStart
    } else if day > end - 3 {
        ReminderPhase::WindowClosing
    } else {
        ReminderPhase::WindowMiddle
    }
}

/// Decide the phrasing phase for a due reminder.
pub fn reminder_phase(due: &DueReminder, today: &Today) -> (r: ReminderPhase)
    requires
        1 <= due.start_day <= due.end_day <= 31,
        today.wf(),
    ensures
        r == spec_phase(due.start_day as int, due.end_day as int, today.day as int),
{
    if today.day == due.start_day {
        ReminderPhase::WindowStart
    } else if today.day > due.end_day.saturating_sub(3) {
        ReminderPhase::WindowClosing
    } else {
        ReminderPhase::WindowMiddle
    }
}

/// One tick's decision: outside the evening window nothing is due; in
/// it, exactly the globally enabled users' due configurations, in
/// snapshot order.
pub fn plan_tick(all: &Vec<(i64, UserReminders)>, clock: &ClockInfo) -> (r: Vec<DueReminder>)
    requires
        forall|i: int| 0 <= i < all@.len() ==> (#[trigger] all@[i]).1.wf(),
    ensures
        !notify_window(clock.hour as int) ==> r@ == Seq::<DueReminder>::empty(),
        notify_window(clock.hour as int) ==> r@ == plan_spec(all@, clock.today),
{
    if clock.hour < 19 || clock.hour > 21 {
        return Vec::new();
    }
    plan_due(all, &clock.today)
}

/// The notifications due on a given day, hour gate aside — the
/// immediate-delivery path.
pub fn plan_due(all: &Vec<(i64, UserReminders)>, today: &Today) -> (r: Vec<DueReminder>)
    requires
        forall|i: int| 0 <= i < all@.len() ==> (#[trigger] all@[i]).1.wf(),
    ensures
        r@ == plan_spec(all@, *today),
{
    let mut out: Vec<DueReminder> = Vec::new();
    let n = all.len();
    let mut i: usize = 0;
    while i < n
        invariant
            0 <= i <= n,
            n == all@.len(),
            forall|a: int| 0 <= a < n ==> (#[trigger] all@[a]).1.wf(),
            out@ == plan_spec(all@.take(i as int), *today),
        decreases n - i,
    {
        let user = all[i].0;
        let rems = &all[i].1;
        if rems.global_enabled {
            let m = rems.reminders.len();
            let mut j: usize = 0;
            while j < m
                invariant
                    0 <= j <= m,
                    0 <= i < n,
                    n == all@.len(),
                    m == rems.reminders@.len(),
                    rems == &all@[i as int].1,
                    user == all@[i as int].0,
                    rems.global_enabled,
                    forall|a: int| 0 <= a < n ==> (#[trigger] all@[a]).1.wf(),
                    out@ == plan_spec(all@.take(i as int), *today) + due_configs(
                        user,
                        rems.reminders@.take(j as int),
                        *today,
                    ),
                decreases m - j,
            {
                let c = &rems.reminders[j];
                proof {
                    assert(rems.reminders@[j as int].wf());
                    assert(rems.reminders@.take(j + 1).drop_last() =~= rems.reminders@.take(
                        j as int,
                    ));
                    assert(rems.reminders@.take(j + 1).last() == rems.reminders@[j as int]);
                }
                let is_due = {
                    let fires = c.should_remind_today(today);
                    if fires {
                        match &c.last_sent_date {
                            Some(d) => !crate::text::str_eq(d.as_str(), today.date_token.as_str()),
                            None => true,
                        }
                    } else {
                        false
                    }
                };
                if is_due {
                    out.push(
                        DueReminder {
                            chat_id: user,
                            counter_type: c.counter_type,
                            start_day: c.start_day,
                            end_day: c.end_day,
                        },
                    );
                    proof {
                        assert(out@ =~= plan_spec(all@.take(i as int), *today) + due_configs(
                            user,
                            rems.reminders@.take(j + 1),
                            *today,
                        ));
                    }
                } else {
                    proof {
                        assert(out@ =~= plan_spec(all@.take(i as int), *today) + due_configs(
                            user,
                            rems.reminders@.take(j + 1),
                            *today,
                        ));
                    }
                }
                j = j + 1;
            }
            proof {
                assert(rems.reminders@.take(m as int) =~= rems.reminders@);
                assert(all@.take(i + 1).drop_last() =~= all@.take(i as int));
                assert(all@.take(i + 1).last() == all@[i as int]);
                assert(out@ =~= plan_spec(all@.take(i + 1), *today));
            }
        } else {
            proof {
                assert(all@.take(i + 1).drop_last() =~= all@.take(i as int));
                assert(all@.take(i + 1).last() == all@[i as int]);
                assert(out@ =~= plan_spec(all@.take(i + 1), *today));
            }
        }
        i = i + 1;
    }
    proof {
        assert(all@.take(n as int) =~= all@);
    }
    out
}

/// What the notifier reported for one dispatched reminder.
#[derive(Clone, Copy, Debug, PartialEq, Eq, Structural)]
pub enum DispatchOutcome {
    Delivered,
    Failed,
}

/// What to do with the configuration after a dispatch.
#[derive(Clone, Copy, Debug, PartialEq, Eq, Structural)]
pub enum DispatchFollowUp {
    /// Record the delivery, so the same-day rule stops further sends.
    RecordSent,
    /// Leave the configuration untouched, so the next tick of the same
    /// day retries.
    RetryLater,
}

/// Only a delivered notification is recorded; a failed one leaves the
/// configuration unmarked and is naturally retried while the day lasts.
pub fn after_dispatch(outcome: &DispatchOutcome) -> (r: DispatchFollowUp)
    ensures
        r == DispatchFollowUp::RecordSent <==> *outcome == DispatchOutcome::Delivered,
        r == DispatchFollowUp::RetryLater <==> *outcome == DispatchOutcome::Failed,
{
    match outcome {
        DispatchOutcome::Delivered => DispatchFollowUp::RecordSent,
        DispatchOutcome::Failed => DispatchFollowUp::RetryLater,
    }
}

/// Same-day deduplication: where every configuration of kind `k` that
/// user `u` holds was already notified today, the plan holds no
/// notification for `(u, k)` — a reminder day notwithstanding.
pub proof fn lemma_same_day_dedupe(
    entries: Seq<(i64, UserReminders)>,
    today: Today,
    u: i64,
    k: CounterType,
)
    requires
        forall|i: int, j: int|
            0 <= i < entries.len() && entries[i].0 == u && 0 <= j
                < (#[trigger] entries[i]).1.reminders@.len() && (#[trigger] entries[i].1.reminders@[
                j
            ]).counter_type == k ==> sent_today(entries[i].1.reminders@[j], today),
    ensures
        forall|a: int|
            0 <= a < plan_spec(entries, today).len() ==> !((#[trigger] plan_spec(entries, today)[
                a
            ]).chat_id == u && plan_spec(entries, today)[a].counter_type == k),
    decreases entries.len(),
{
    if entries.len() > 0 {
        let prefix = entries.drop_last();
        assert(forall|i: int| 0 <= i < prefix.len() ==> (#[trigger] prefix[i]) == entries[i]);
        lemma_same_day_dedupe(prefix, today, u, k);
        let last = entries.last();
        if last.1.global_enabled {
            lemma_due_configs_dedupe(last.0, last.1.reminders@, today, u, k, entries);
        }
    }
}

/// The per-user half of the deduplication argument.
proof fn lemma_due_configs_dedupe(
    owner: i64,
    s: Seq<CounterReminder>,
    today: Today,
    u: i64,
    k: CounterType,
    entries: Seq<(i64, UserReminders)>,
)
    requires
        forall|j: int|
            0 <= j < s.len() && owner == u && (#[trigger] s[j]).counter_type == k ==> sent_today(
                s[j],
                today,
            ),
    ensures
        forall|a: int|
            0 <= a < due_configs(owner, s, today).len() ==> !((#[trigger] due_configs(
                owner,
                s,
                today,
            )[a]).chat_id == u && due_configs(owner, s, today)[a].counter_type == k),
    decreases s.len(),
{
    if s.len() > 0 {
        let prefix = s.drop_last();
        assert(forall|j: int| 0 <= j < prefix.len() ==> (#[trigger] prefix[j]) == s[j]);
        lemma_due_configs_dedupe(owner, prefix, today, u, k, entries);
        if due_entry(s.last(), today) {
            if owner == u && s.last().counter_type == k {
                assert(sent_today(s.last(), today));
                assert(!due_entry(s.last(), today));
            }
        }
    }
}

} // verus!
