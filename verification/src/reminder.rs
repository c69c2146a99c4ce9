//! Recurring reminder windows: counter kinds, per-counter configuration,
//! the day-of-month decision rule, and the per-user reminder set.

use vstd::prelude::*;
use crate::text::str_eq;

verus! {

/// The closed set of counter kinds with independent reminder windows.
#[derive(Clone, Copy, Debug, PartialEq, Eq, Structural)]
pub enum CounterType {
    Water,
    Electricity,
}

impl CounterType {
    /// The stable storage key of this kind.
    pub open spec fn spec_key(self) -> Seq<char> {
        match self {
            CounterType::Water => "water"@,
            CounterType::Electricity => "electricity"@,
        }
    }

    /// The human-facing name of this kind.
    pub open spec fn spec_display(self) -> Seq<char> {
        match self {
            CounterType::Water => "💧 Вода"@,
            CounterType::Electricity => "⚡ Электричество"@,
        }
    }

    pub fn as_str(&self) -> (r: &'static str)
        ensures
            r@ == self.spec_key(),
    {
        match self {
            CounterType::Water => "water",
            CounterType::Electricity => "electricity",
        }
    }

    pub fn display_name(&self) -> (r: &'static str)
        ensures
            r@ == self.spec_display(),
    {
        match self {
            CounterType::Water => "💧 Вода",
            CounterType::Electricity => "⚡ Электричество",
        }
    }

    pub fn from_str(s: &str) -> (r: Option<CounterType>)
        ensures
            r == Some(CounterType::Water) <==> s@ == "water"@,
            r == Some(CounterType::Electricity) <==> s@ == "electricity"@,
            r is None <==> (s@ != "water"@ && s@ != "electricity"@),
    {
        proof {
            reveal_strlit("water");
            reveal_strlit("electricity");
            assert("water"@.len() == 5);
            assert("electricity"@.len() == 11);
            assert("water"@ != "electricity"@);
        }
        if str_eq(s, "water") {
            Some(CounterType::Water)
        } else if str_eq(s, "electricity") {
            Some(CounterType::Electricity)
        } else {
            None
        }
    }
}

/// A calendar day as the scheduler sees it: the day of month together
/// with the month token (`YYYY-MM`) and date token (`YYYY-MM-DD`) used
/// for monthly resets and same-day deduplication.
pub struct Today {
    pub day: u32,
    pub month_token: String,
    pub date_token: String,
}

impl Today {
    /// A plausible day of month.
    pub open spec fn wf(self) -> bool {
        1 <= self.day <= 31
    }
}

impl Clone for Today {
    fn clone(&self) -> (r: Self)
        ensures
            r == *self,
    {
        Today {
            day: self.day,
            month_token: self.month_token.clone(),
            date_token: self.date_token.clone(),
        }
    }
}

/// The day-of-month rule for a window `[start, end]`: remind on the first
/// day, on the midpoint day, and on each of the last three days.
pub open spec fn window_due(start: int, end: int, day: int) -> bool {
    &&& start <= day <= end
    &&& (day == start || day == (start + end) / 2 || day > end - 3)
}

/// The set of days on which a window reminds.
pub open spec fn reminder_days(start: int, end: int) -> Set<int> {
    Set::new(|d: int| window_due(start, end, d))
}

/// The reminder days are exactly the window's first day, its midpoint
/// day and its last three days, intersected with the window, and the set
/// always holds the window's final day.
pub proof fn lemma_reminder_days_exact(start: int, end: int)
    requires
        1 <= start <= end <= 31,
    ensures
        reminder_days(start, end) =~= Set::new(
            |d: int| d == start || d == (start + end) / 2 || end - 3 < d <= end,
        ).intersect(Set::new(|d: int| start <= d <= end)),
        reminder_days(start, end).contains(end),
{
}

/// Per-counter reminder configuration.
#[derive(Debug)]
pub struct CounterReminder {
    pub counter_type: CounterType,
    pub start_day: u32,
    pub end_day: u32,
    pub enabled: bool,
    pub last_sent_month: Option<String>,
    pub last_sent_date: Option<String>,
    pub completed_this_month: bool,
}

impl Clone for CounterReminder {
    fn clone(&self) -> (r: Self)
        ensures
            r == *self,
    {
        CounterReminder {
            counter_type: self.counter_type,
            start_day: self.start_day,
            end_day: self.end_day,
            enabled: self.enabled,
            last_sent_month: match &self.last_sent_month {
                Some(m) => Some(m.clone()),
                None => None,
            },
            last_sent_date: match &self.last_sent_date {
                Some(d) => Some(d.clone()),
                None => None,
            },
            completed_this_month: self.completed_this_month,
        }
    }
}

/// The monthly reset of a configuration: the completion flag is cleared
/// unless the configuration was last notified in the current month — an
/// absent last-notified month counts as differing, so a never-notified
/// configuration's window reopens too.
pub open spec fn reset_tr(c: CounterReminder, month: Seq<char>) -> CounterReminder {
    match c.last_sent_month {
        Some(m) => if m@ != month {
            CounterReminder { completed_this_month: false, ..c }
        } else {
            c
        },
        None => CounterReminder { completed_this_month: false, ..c },
    }
}

impl CounterReminder {
    /// A valid day window.
    pub open spec fn wf(self) -> bool {
        1 <= self.start_day <= self.end_day <= 31
    }

    /// Whether the rule fires on day `day`, given the flags.
    pub open spec fn spec_should_remind(self, day: int) -> bool {
        &&& self.enabled
        &&& !self.completed_this_month
        &&& window_due(self.start_day as int, self.end_day as int, day)
    }

    /// A fresh configuration: enabled, never notified, not completed.
    pub fn new(counter_type: CounterType, start_day: u32, end_day: u32) -> (r: Self)
        requires
            1 <= start_day <= end_day <= 31,
        ensures
            r.counter_type == counter_type,
            r.start_day == start_day,
            r.end_day == end_day,
            r.enabled,
            r.last_sent_month is None,
            r.last_sent_date is None,
            !r.completed_this_month,
            r.wf(),
    {
        CounterReminder {
            counter_type,
            start_day,
            end_day,
            enabled: true,
            last_sent_month: None,
            last_sent_date: None,
            completed_this_month: false,
        }
    }

    /// Decide whether to remind on the given day.  Disabled or completed
    /// configurations never remind; otherwise the window rule applies.
    pub fn should_remind_today(&self, today: &Today) -> (r: bool)
        requires
            self.wf(),
        ensures
            r == self.spec_should_remind(today.day as int),
    {
        if !self.enabled || self.completed_this_month {
            return false;
        }
        let day = today.day;
        if day < self.start_day || day > self.end_day {
            return false;
        }
        if day == self.start_day {
            return true;
        }
        let middle_day = (self.start_day + self.end_day) / 2;
        if day == middle_day {
            return true;
        }
        if day > self.end_day.saturating_sub(3) {
            return true;
        }
        false
    }

    /// Record a delivery on `today`: both the month and the date marker
    /// are set, and nothing else changes.
    pub fn mark_sent(&mut self, today: &Today)
        ensures
            final(self).last_sent_month == Some(today.month_token),
            final(self).last_sent_date == Some(today.date_token),
            final(self).counter_type == old(self).counter_type,
            final(self).start_day == old(self).start_day,
            final(self).end_day == old(self).end_day,
            final(self).enabled == old(self).enabled,
            final(self).completed_this_month == old(self).completed_this_month,
    {
        self.last_sent_month = Some(today.month_token.clone());
        self.last_sent_date = Some(today.date_token.clone());
    }

    /// Record that the user submitted this month's reading.
    pub fn mark_completed(&mut self)
        ensures
            final(self).completed_this_month,
            final(self).counter_type == old(self).counter_type,
            final(self).start_day == old(self).start_day,
            final(self).end_day == old(self).end_day,
            final(self).enabled == old(self).enabled,
            final(self).last_sent_month == old(self).last_sent_month,
            final(self).last_sent_date == old(self).last_sent_date,
    {
        self.completed_this_month = true;
    }

    /// Apply the monthly reset rule for the month `current_month`.
    pub fn reset_for_new_month(&mut self, current_month: &str)
        ensures
            *final(self) == reset_tr(*old(self), current_month@),
    {
        let needs_reset = match &self.last_sent_month {
            Some(last) => !str_eq(last.as_str(), current_month),
            None => true,
        };
        if needs_reset {
            self.completed_this_month = false;
        }
    }
}

/// A reminder is never due outside its window, whatever the flags say.
pub proof fn lemma_never_due_outside_window(c: CounterReminder, day: int)
    requires
        day < c.start_day || day > c.end_day,
    ensures
        !c.spec_should_remind(day),
{
}

/// A completed configuration is never due, even on a reminder day.
pub proof fn lemma_never_due_when_completed(c: CounterReminder, day: int)
    requires
        c.completed_this_month,
    ensures
        !c.spec_should_remind(day),
{
}

/// Find the configuration of kind `k` in a sequence, front first.
pub open spec fn spec_find(s: Seq<CounterReminder>, k: CounterType) -> Option<CounterReminder>
    decreases s.len(),
{
    if s.len() == 0 {
        None
    } else if s[0].counter_type == k {
        Some(s[0])
    } else {
        spec_find(s.drop_first(), k)
    }
}

/// If the first `i` elements are not of kind `k`, the search outcome is
/// decided by the rest.
pub proof fn lemma_find_skip(s: Seq<CounterReminder>, k: CounterType, i: int)
    requires
        0 <= i < s.len(),
        s[i].counter_type != k,
        spec_find(s, k) == spec_find(s.skip(i), k),
    ensures
        spec_find(s, k) == spec_find(s.skip(i + 1), k),
{
    assert(s.skip(i).len() > 0);
    assert(s.skip(i)[0] == s[i]);
    assert(s.skip(i).drop_first() =~= s.skip(i + 1));
}

/// Appending an element changes the search only where nothing of that
/// kind was present.
pub proof fn lemma_find_push(s: Seq<CounterReminder>, x: CounterReminder, k: CounterType)
    ensures
        spec_find(s.push(x), k) == (if spec_find(s, k) is Some {
            spec_find(s, k)
        } else if x.counter_type == k {
            Some(x)
        } else {
            None
        }),
    decreases s.len(),
{
    if s.len() == 0 {
        assert(s.push(x)[0] == x);
        assert(s.push(x).drop_first() =~= Seq::<CounterReminder>::empty());
    } else {
        assert(s.push(x)[0] == s[0]);
        assert(s.push(x).drop_first() =~= s.drop_first().push(x));
        lemma_find_push(s.drop_first(), x, k);
    }
}

/// Replacing the first element of a kind with another of the same kind
/// redirects the search for that kind and changes no other.
pub proof fn lemma_find_update(
    s: Seq<CounterReminder>,
    idx: int,
    x: CounterReminder,
    k: CounterType,
)
    requires
        0 <= idx < s.len(),
        s[idx].counter_type == x.counter_type,
        forall|a: int| 0 <= a < idx ==> (#[trigger] s[a]).counter_type != x.counter_type,
    ensures
        spec_find(s.update(idx, x), k) == (if k == x.counter_type {
            Some(x)
        } else {
            spec_find(s, k)
        }),
    decreases s.len(),
{
    let u = s.update(idx, x);
    if idx == 0 {
        assert(u[0] == x);
        assert(u.drop_first() =~= s.drop_first());
        if k != x.counter_type {
            if s[0].counter_type == k {
                assert(false);
            }
        }
    } else {
        assert(u[0] == s[0]);
        assert(u.drop_first() =~= s.drop_first().update(idx - 1, x));
        assert(forall|a: int| 0 <= a < idx - 1 ==> (#[trigger] s.drop_first()[a]) == s[a + 1]);
        assert(s.drop_first()[idx - 1] == s[idx]);
        lemma_find_update(s.drop_first(), idx - 1, x, k);
    }
}

/// A found configuration is of the kind searched for, and well-formed
/// where every element is.
pub proof fn lemma_find_props(s: Seq<CounterReminder>, k: CounterType)
    ensures
        spec_find(s, k) matches Some(c) ==> c.counter_type == k,
        (forall|i: int| 0 <= i < s.len() ==> s[i].wf()) ==> (spec_find(s, k) matches Some(c)
            ==> c.wf()),
    decreases s.len(),
{
    if s.len() > 0 {
        lemma_find_props(s.drop_first(), k);
    }
}

/// Per-user reminder state: one optional configuration per counter kind
/// and a global switch gating them all.
#[derive(Debug)]
pub struct UserReminders {
    pub reminders: Vec<CounterReminder>,
    pub global_enabled: bool,
}

impl Clone for UserReminders {
    fn clone(&self) -> (r: Self)
        ensures
            r.reminders@ == self.reminders@,
            r.global_enabled == self.global_enabled,
    {
        let mut items: Vec<CounterReminder> = Vec::new();
        let mut i: usize = 0;
        while i < self.reminders.len()
            invariant
                0 <= i <= self.reminders@.len(),
                items@ == self.reminders@.take(i as int),
            decreases self.reminders@.len() - i,
        {
            items.push(self.reminders[i].clone());
            proof {
                assert(self.reminders@.take(i + 1)
                    =~= self.reminders@.take(i as int).push(self.reminders@[i as int]));
            }
            i = i + 1;
        }
        proof {
            assert(self.reminders@.take(self.reminders@.len() as int) =~= self.reminders@);
        }
        UserReminders { reminders: items, global_enabled: self.global_enabled }
    }
}

impl UserReminders {
    /// At most one configuration per kind, each well-formed.
    pub open spec fn wf(self) -> bool {
        &&& forall|i: int, j: int|
            0 <= i < j < self.reminders@.len() ==> self.reminders@[i].counter_type
                != self.reminders@[j].counter_type
        &&& forall|i: int| 0 <= i < self.reminders@.len() ==> self.reminders@[i].wf()
    }

    /// The configuration stored for kind `k`, if any.
    pub open spec fn lookup(self, k: CounterType) -> Option<CounterReminder> {
        spec_find(self.reminders@, k)
    }

    /// The empty reminder set: no configurations, globally enabled.
    pub fn new() -> (r: Self)
        ensures
            r.reminders@.len() == 0,
            r.global_enabled,
            r.wf(),
            forall|k: CounterType| #![all_triggers] r.lookup(k) is None,
    {
        UserReminders { reminders: Vec::new(), global_enabled: true }
    }

    /// Insert or replace the configuration for `reminder`'s kind, leaving
    /// every other kind untouched.
    pub fn add_reminder(&mut self, reminder: CounterReminder)
        requires
            old(self).wf(),
            reminder.wf(),
        ensures
            final(self).wf(),
            final(self).lookup(reminder.counter_type) == Some(reminder),
            forall|k: CounterType| #![all_triggers]
                k != reminder.counter_type ==> final(self).lookup(k) == old(self).lookup(k),
            final(self).global_enabled == old(self).global_enabled,
    {
        let ghost s0 = self.reminders@;
        let n = self.reminders.len();
        let mut i: usize = 0;
        while i < n
            invariant
                0 <= i <= n,
                n == self.reminders@.len(),
                self.reminders@ == s0,
                s0 == old(self).reminders@,
                self.global_enabled == old(self).global_enabled,
                reminder.wf(),
                forall|i0: int, j0: int|
                    0 <= i0 < j0 < s0.len() ==> s0[i0].counter_type != s0[j0].counter_type,
                forall|i0: int| 0 <= i0 < s0.len() ==> (#[trigger] s0[i0]).wf(),
                forall|a: int| 0 <= a < i ==> (#[trigger] s0[a]).counter_type
                    != reminder.counter_type,
            decreases n - i,
        {
            if self.reminders[i].counter_type == reminder.counter_type {
                // Replace in place: the sequence of kinds is unchanged.
                self.reminders.set(i, reminder);
                proof {
                    assert(self.reminders@ == s0.update(i as int, reminder));
                    assert forall|k: CounterType| #[trigger] spec_find(self.reminders@, k) == (
                    if k == reminder.counter_type {
                        Some(reminder)
                    } else {
                        spec_find(s0, k)
                    }) by {
                        lemma_find_update(s0, i as int, reminder, k);
                    }
                    assert(forall|a: int| 0 <= a < s0.len() ==> (#[trigger] s0.update(
                        i as int,
                        reminder,
                    )[a]).counter_type == s0[a].counter_type);
                    assert(forall|a: int| 0 <= a < s0.len() && a != i ==> (#[trigger] s0.update(
                        i as int,
                        reminder,
                    )[a]) == s0[a]);
                    assert(s0.update(i as int, reminder)[i as int] == reminder);
                    assert(final(self).wf());
                }
                return;
            }
            i = i + 1;
        }
        // No configuration of this kind yet: append one.
        let ghost before = self.reminders@;
        self.reminders.push(reminder);
        proof {
            lemma_find_none_when_absent(before, reminder.counter_type);
            assert forall|k: CounterType| #[trigger] spec_find(self.reminders@, k) == (if k
                == reminder.counter_type {
                Some(reminder)
            } else {
                spec_find(s0, k)
            }) by {
                lemma_find_push(before, reminder, k);
            }
            assert(forall|a: int| 0 <= a < before.len() ==> (#[trigger] self.reminders@[a])
                == before[a]);
            assert(self.reminders@[before.len() as int] == reminder);
        }
    }

    /// Read the configuration for a kind.
    pub fn get_reminder(&self, counter_type: &CounterType) -> (r: Option<&CounterReminder>)
        ensures
            match r {
                Some(c) => self.lookup(*counter_type) == Some(*c),
                None => self.lookup(*counter_type) is None,
            },
    {
        let n = self.reminders.len();
        proof {
            assert(self.reminders@.skip(0) =~= self.reminders@);
        }
        let mut i: usize = 0;
        while i < n
            invariant
                0 <= i <= n,
                n == self.reminders@.len(),
                spec_find(self.reminders@, *counter_type) == spec_find(
                    self.reminders@.skip(i as int),
                    *counter_type,
                ),
            decreases n - i,
        {
            if self.reminders[i].counter_type == *counter_type {
                proof {
                    assert(self.reminders@.skip(i as int)[0] == self.reminders@[i as int]);
                }
                return Some(&self.reminders[i]);
            }
            proof {
                lemma_find_skip(self.reminders@, *counter_type, i as int);
            }
            i = i + 1;
        }
        proof {
            assert(self.reminders@.skip(n as int) =~= Seq::<CounterReminder>::empty());
        }
        None
    }

    /// Set the completion flag of the configuration for `counter_type`,
    /// if one exists; otherwise do nothing.
    pub fn mark_completed_for(&mut self, counter_type: &CounterType)
        requires
            old(self).wf(),
        ensures
            final(self).wf(),
            final(self).global_enabled == old(self).global_enabled,
            final(self).lookup(*counter_type) == (match old(self).lookup(*counter_type) {
                Some(c) => Some((CounterReminder { completed_this_month: true, ..c })),
                None => None::<CounterReminder>,
            }),
            forall|k: CounterType| #![all_triggers]
                k != *counter_type ==> final(self).lookup(k) == old(self).lookup(k),
    {
        let ghost s0 = self.reminders@;
        let n = self.reminders.len();
        proof {
            assert(s0.skip(0) =~= s0);
        }
        let mut i: usize = 0;
        while i < n
            invariant
                0 <= i <= n,
                n == self.reminders@.len(),
                self.reminders@ == s0,
                s0 == old(self).reminders@,
                self.global_enabled == old(self).global_enabled,
                forall|i0: int, j0: int|
                    0 <= i0 < j0 < s0.len() ==> s0[i0].counter_type != s0[j0].counter_type,
                forall|i0: int| 0 <= i0 < s0.len() ==> (#[trigger] s0[i0]).wf(),
                forall|a: int| 0 <= a < i ==> (#[trigger] s0[a]).counter_type != *counter_type,
                spec_find(s0, *counter_type) == spec_find(s0.skip(i as int), *counter_type),
            decreases n - i,
        {
            if self.reminders[i].counter_type == *counter_type {
                proof {
                    assert(s0.skip(i as int)[0] == s0[i as int]);
                    assert(spec_find(s0, *counter_type) == Some(s0[i as int]));
                }
                let mut c = self.reminders[i].clone();
                c.mark_completed();
                proof {
                    assert(c == (CounterReminder { completed_this_month: true, ..s0[i as int] }));
                }
                self.reminders.set(i, c);
                proof {
                    assert(self.reminders@ == s0.update(i as int, c));
                    assert forall|k: CounterType| #[trigger] spec_find(self.reminders@, k) == (
                    if k == *counter_type {
                        Some(c)
                    } else {
                        spec_find(s0, k)
                    }) by {
                        lemma_find_update(s0, i as int, c, k);
                    }
                    assert(forall|a: int| 0 <= a < s0.len() ==> (#[trigger] s0.update(
                        i as int,
                        c,
                    )[a]).counter_type == s0[a].counter_type);
                    assert(forall|a: int| 0 <= a < s0.len() && a != i ==> (#[trigger] s0.update(
                        i as int,
                        c,
                    )[a]) == s0[a]);
                    assert(s0.update(i as int, c)[i as int] == c);
                    assert(final(self).wf());
                }
                return;
            }
            proof {
                lemma_find_skip(s0, *counter_type, i as int);
            }
            i = i + 1;
        }
        proof {
            lemma_find_none_when_absent(s0, *counter_type);
        }
    }

    /// Record a delivery on `today` for the configuration of
    /// `counter_type`, if one exists; otherwise do nothing.
    pub fn mark_sent_for(&mut self, counter_type: &CounterType, today: &Today)
        requires
            old(self).wf(),
        ensures
            final(self).wf(),
            final(self).global_enabled == old(self).global_enabled,
            final(self).lookup(*counter_type) == (match old(self).lookup(*counter_type) {
                Some(c) => Some((CounterReminder {
                    last_sent_month: Some(today.month_token),
                    last_sent_date: Some(today.date_token),
                    ..c
                })),
                None => None::<CounterReminder>,
            }),
            forall|k: CounterType| #![all_triggers]
                k != *counter_type ==> final(self).lookup(k) == old(self).lookup(k),
    {
        let ghost s0 = self.reminders@;
        let n = self.reminders.len();
        proof {
            assert(s0.skip(0) =~= s0);
        }
        let mut i: usize = 0;
        while i < n
            invariant
                0 <= i <= n,
                n == self.reminders@.len(),
                self.reminders@ == s0,
                s0 == old(self).reminders@,
                self.global_enabled == old(self).global_enabled,
                forall|i0: int, j0: int|
                    0 <= i0 < j0 < s0.len() ==> s0[i0].counter_type != s0[j0].counter_type,
                forall|i0: int| 0 <= i0 < s0.len() ==> (#[trigger] s0[i0]).wf(),
                forall|a: int| 0 <= a < i ==> (#[trigger] s0[a]).counter_type != *counter_type,
                spec_find(s0, *counter_type) == spec_find(s0.skip(i as int), *counter_type),
            decreases n - i,
        {
            if self.reminders[i].counter_type == *counter_type {
                proof {
                    assert(s0.skip(i as int)[0] == s0[i as int]);
                    assert(spec_find(s0, *counter_type) == Some(s0[i as int]));
                }
                let mut c = self.reminders[i].clone();
                c.mark_sent(today);
                proof {
                    assert(c == (CounterReminder {
                        last_sent_month: Some(today.month_token),
                        last_sent_date: Some(today.date_token),
                        ..s0[i as int]
                    }));
                }
                self.reminders.set(i, c);
                proof {
                    assert(self.reminders@ == s0.update(i as int, c));
                    assert forall|k: CounterType| #[trigger] spec_find(self.reminders@, k) == (
                    if k == *counter_type {
                        Some(c)
                    } else {
                        spec_find(s0, k)
                    }) by {
                        lemma_find_update(s0, i as int, c, k);
                    }
                    assert(forall|a: int| 0 <= a < s0.len() ==> (#[trigger] s0.update(
                        i as int,
                        c,
                    )[a]).counter_type == s0[a].counter_type);
                    assert(forall|a: int| 0 <= a < s0.len() && a != i ==> (#[trigger] s0.update(
                        i as int,
                        c,
                    )[a]) == s0[a]);
                    assert(s0.update(i as int, c)[i as int] == c);
                    assert(final(self).wf());
                }
                return;
            }
            proof {
                lemma_find_skip(s0, *counter_type, i as int);
            }
            i = i + 1;
        }
        proof {
            lemma_find_none_when_absent(s0, *counter_type);
        }
    }

    /// Apply the monthly reset rule to every configuration.
    pub fn reset_all(&mut self, current_month: &str)
        requires
            old(self).wf(),
        ensures
            final(self).wf(),
            final(self).global_enabled == old(self).global_enabled,
            forall|k: CounterType| #![all_triggers]
                final(self).lookup(k) == (match old(self).lookup(k) {
                    Some(c) => Some(reset_tr(c, current_month@)),
                    None => None::<CounterReminder>,
                }),
    {
        let ghost s0 = self.reminders@;
        let n = self.reminders.len();
        let mut j: usize = 0;
        while j < n
            invariant
                0 <= j <= n,
                n == s0.len(),
                self.reminders@.len() == s0.len(),
                s0 == old(self).reminders@,
                self.global_enabled == old(self).global_enabled,
                forall|a: int| 0 <= a < j ==> self.reminders@[a] == reset_tr(
                    s0[a],
                    current_month@,
                ),
                forall|a: int| j <= a < n ==> self.reminders@[a] == s0[a],
            decreases n - j,
        {
            let mut c = self.reminders[j].clone();
            c.reset_for_new_month(current_month);
            self.reminders.set(j, c);
            j = j + 1;
        }
        proof {
            lemma_find_reset(s0, self.reminders@, current_month@);
            assert(forall|a: int| 0 <= a < s0.len() ==> (#[trigger] self.reminders@[a]).counter_type
                == s0[a].counter_type);
            assert(forall|a: int| 0 <= a < s0.len() ==> (#[trigger] self.reminders@[a]).wf());
            assert(old(self).wf());
        }
    }

    /// Flip the global switch and report the new position.
    pub fn toggle_global(&mut self) -> (r: bool)
        ensures
            final(self).global_enabled == !old(self).global_enabled,
            r == final(self).global_enabled,
            final(self).reminders == old(self).reminders,
    {
        self.global_enabled = !self.global_enabled;
        self.global_enabled
    }
}

/// Where no element has kind `k`, the search finds nothing.
pub proof fn lemma_find_none_when_absent(s: Seq<CounterReminder>, k: CounterType)
    requires
        forall|a: int| 0 <= a < s.len() ==> (#[trigger] s[a]).counter_type != k,
    ensures
        spec_find(s, k) is None,
    decreases s.len(),
{
    if s.len() > 0 {
        assert(s[0].counter_type != k);
        assert(forall|a: int| 0 <= a < s.drop_first().len() ==> (#[trigger] s.drop_first()[a])
            == s[a + 1]);
        lemma_find_none_when_absent(s.drop_first(), k);
    }
}

/// Applying the monthly reset elementwise maps the search result.
pub proof fn lemma_find_reset(s1: Seq<CounterReminder>, s2: Seq<CounterReminder>, month: Seq<char>)
    requires
        s1.len() == s2.len(),
        forall|j: int| 0 <= j < s1.len() ==> s2[j] == reset_tr(s1[j], month),
    ensures
        forall|k: CounterType|
            #[trigger] spec_find(s2, k) == (match spec_find(s1, k) {
                Some(c) => Some(reset_tr(c, month)),
                None => None::<CounterReminder>,
            }),
    decreases s1.len(),
{
    if s1.len() > 0 {
        assert(s2[0] == reset_tr(s1[0], month));
        assert(forall|a: int| 0 <= a < s1.drop_first().len() ==> (#[trigger] s1.drop_first()[a])
            == s1[a + 1]);
        assert(forall|a: int| 0 <= a < s2.drop_first().len() ==> (#[trigger] s2.drop_first()[a])
            == s2[a + 1]);
        lemma_find_reset(s1.drop_first(), s2.drop_first(), month);
        assert forall|k: CounterType| #[trigger] spec_find(s2, k) == (match spec_find(s1, k) {
            Some(c) => Some(reset_tr(c, month)),
            None => None::<CounterReminder>,
        }) by {
            assert(s2[0].counter_type == s1[0].counter_type);
            if s1[0].counter_type == k {
                assert(spec_find(s1, k) == Some(s1[0]));
                assert(spec_find(s2, k) == Some(s2[0]));
            } else {
                assert(spec_find(s1, k) == spec_find(s1.drop_first(), k));
                assert(spec_find(s2, k) == spec_find(s2.drop_first(), k));
                assert(spec_find(s2.drop_first(), k) == (match spec_find(s1.drop_first(), k) {
                    Some(c) => Some(reset_tr(c, month)),
                    None => None::<CounterReminder>,
                }));
            }
        }
    }
}

/// The conversational states of the reminder setup flow.
#[derive(Clone, Copy, Debug)]
pub enum ReminderState {
    WaitingForWaterPeriod,
    WaitingForElectricityPeriod,
}

} // verus!
