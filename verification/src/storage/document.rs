//! The whole-document storage model: one value holding every user's task
//! list and reminder set.  The file-backed backend reads this document,
//! applies exactly one of the operations below, and writes it back; the
//! operations themselves are pure and fully verified.

use vstd::prelude::*;
use crate::todo::TodoItem;
use crate::reminder::{CounterType, CounterReminder, UserReminders, Today, reset_tr};
use crate::text::trimmed;
use crate::storage::{StorageError, assoc_find, assoc_index, distinct_keys};
use crate::storage::{
    lemma_assoc_find_push, lemma_assoc_find_none_when_absent, lemma_assoc_find_update,
};

verus! {

/// Every user's data: ordered task lists and reminder sets, keyed by
/// chat id.
pub struct DocumentStore {
    pub todos: Vec<(i64, Vec<TodoItem>)>,
    pub reminders: Vec<(i64, UserReminders)>,
}

impl DocumentStore {
    /// Keys occur once, and every reminder set is well-formed.
    pub open spec fn wf(self) -> bool {
        &&& distinct_keys(self.todos@)
        &&& distinct_keys(self.reminders@)
        &&& forall|i: int| 0 <= i < self.reminders@.len() ==> (#[trigger] self.reminders@[i]).1.wf()
    }

    /// The user's current ordered task list (empty when absent).
    pub open spec fn tasks_of(self, user: i64) -> Seq<TodoItem> {
        match assoc_find(self.todos@, user) {
            Some(v) => v@,
            None => Seq::empty(),
        }
    }

    /// The user's global reminder switch (on when absent).
    pub open spec fn global_of(self, user: i64) -> bool {
        match assoc_find(self.reminders@, user) {
            Some(r) => r.global_enabled,
            None => true,
        }
    }

    /// The user's configuration for a counter kind, if any.
    pub open spec fn config_of(self, user: i64, k: CounterType) -> Option<CounterReminder> {
        match assoc_find(self.reminders@, user) {
            Some(r) => r.lookup(k),
            None => None,
        }
    }

    /// An empty document.
    pub fn new() -> (r: Self)
        ensures
            r.wf(),
            r.todos@.len() == 0,
            r.reminders@.len() == 0,
            forall|u: i64| r.tasks_of(u) == Seq::<TodoItem>::empty(),
            forall|u: i64| r.global_of(u),
            forall|u: i64, k: CounterType| r.config_of(u, k) is None,
    {
        DocumentStore { todos: Vec::new(), reminders: Vec::new() }
    }

    /// Append a new task with the trimmed text to the user's list.
    pub fn add_task(&mut self, chat_id: i64, text: &str)
        requires
            old(self).wf(),
        ensures
            final(self).wf(),
            final(self).tasks_of(chat_id).len() == old(self).tasks_of(chat_id).len() + 1,
            final(self).tasks_of(chat_id).drop_last() == old(self).tasks_of(chat_id),
            final(self).tasks_of(chat_id).last().text@ == trimmed(text@),
            !final(self).tasks_of(chat_id).last().completed,
            forall|v: i64| #![all_triggers] v != chat_id ==> final(self).tasks_of(v) == old(self).tasks_of(v),
            final(self).reminders@ == old(self).reminders@,
    {
        let item = TodoItem::new(crate::text::trim_str(text));
        self.insert_task(chat_id, item);
        proof {
            assert(final(self).tasks_of(chat_id).drop_last() =~= old(self).tasks_of(chat_id));
        }
    }

    /// Append one given record to the user's list: the deterministic
    /// core of `add_task`, taking the generated record as an input.
    pub fn insert_task(&mut self, chat_id: i64, item: TodoItem)
        requires
            old(self).wf(),
        ensures
            final(self).wf(),
            final(self).tasks_of(chat_id) == old(self).tasks_of(chat_id).push(item),
            forall|v: i64| #![all_triggers] v != chat_id ==> final(self).tasks_of(v) == old(self).tasks_of(v),
            final(self).reminders@ == old(self).reminders@,
    {
        let ghost t0 = self.todos@;
        let ghost itemv = item;
        match assoc_index(&self.todos, chat_id) {
            Some(i) => {
                let mut pair = self.todos.remove(i);
                let ghost l0 = pair.1@;
                pair.1.push(item);
                let ghost pairv = pair;
                self.todos.insert(i, pair);
                proof {
                    assert(self.todos@ =~= t0.update(i as int, pairv));
                    assert(pairv.1@ == l0.push(itemv));
                    assert forall|v: i64| #[trigger] assoc_find(self.todos@, v) == (if v == chat_id {
                        Some(pairv.1)
                    } else {
                        assoc_find(t0, v)
                    }) by {
                        lemma_assoc_find_update(t0, i as int, pairv, v);
                    }
                    assert(forall|a: int| 0 <= a < t0.len() ==> (#[trigger] t0.update(
                        i as int,
                        pairv,
                    )[a]).0 == t0[a].0);
                }
            },
            None => {
                let mut lst: Vec<TodoItem> = Vec::new();
                lst.push(item);
                let ghost pairv = (chat_id, lst);
                self.todos.push((chat_id, lst));
                proof {
                    assert(self.todos@ == t0.push(pairv));
                    assert forall|v: i64| #[trigger] assoc_find(self.todos@, v) == (if v == chat_id {
                        Some(pairv.1)
                    } else {
                        assoc_find(t0, v)
                    }) by {
                        lemma_assoc_find_push(t0, pairv, v);
                        if v == chat_id {
                            lemma_assoc_find_none_when_absent(t0, chat_id);
                        }
                    }
                    assert(pairv.1@ =~= Seq::<TodoItem>::empty().push(itemv));
                    assert(old(self).tasks_of(chat_id) == Seq::<TodoItem>::empty());
                    assert(forall|a: int| 0 <= a < t0.len() ==> (#[trigger] self.todos@[a]) == t0[
                        a
                    ]);
                    assert(self.todos@[t0.len() as int].0 == chat_id);
                }
            },
        }
    }

    /// Read the user's current task list.
    pub fn get_tasks(&self, chat_id: i64) -> (r: Vec<TodoItem>)
        ensures
            r@ == self.tasks_of(chat_id),
    {
        match assoc_index(&self.todos, chat_id) {
            Some(i) => {
                let src = &self.todos[i].1;
                let mut out: Vec<TodoItem> = Vec::new();
                let n = src.len();
                let mut j: usize = 0;
                while j < n
                    invariant
                        0 <= j <= n,
                        n == src@.len(),
                        out@ == src@.take(j as int),
                    decreases n - j,
                {
                    out.push(src[j].clone());
                    proof {
                        assert(src@.take(j + 1) =~= src@.take(j as int).push(src@[j as int]));
                    }
                    j = j + 1;
                }
                proof {
                    assert(src@.take(n as int) =~= src@);
                }
                out
            },
            None => Vec::new(),
        }
    }

    /// Flip the completion flag of the task at `task_index` and hand back
    /// its text; an index at or beyond the list's length reports
    /// `NotFound` and changes nothing.
    pub fn mark_task_completed(&mut self, chat_id: i64, task_index: usize) -> (r: Result<
        String,
        StorageError,
    >)
        requires
            old(self).wf(),
        ensures
            final(self).wf(),
            task_index < old(self).tasks_of(chat_id).len() ==> {
                &&& r == Ok::<String, StorageError>(
                    old(self).tasks_of(chat_id)[task_index as int].text,
                )
                &&& final(self).tasks_of(chat_id) == old(self).tasks_of(chat_id).update(
                    task_index as int,
                    (TodoItem {
                        completed: true,
                        ..old(self).tasks_of(chat_id)[task_index as int]
                    }),
                )
                &&& (forall|v: i64| #![all_triggers]
                    v != chat_id ==> final(self).tasks_of(v) == old(self).tasks_of(v))
            },
            task_index >= old(self).tasks_of(chat_id).len() ==> {
                &&& r == Err::<String, StorageError>(StorageError::NotFound)
                &&& final(self).todos@ == old(self).todos@
            },
            final(self).reminders@ == old(self).reminders@,
    {
        let ghost t0 = self.todos@;
        match assoc_index(&self.todos, chat_id) {
            Some(i) => {
                let mut pair = self.todos.remove(i);
                if task_index < pair.1.len() {
                    let ghost l0 = pair.1@;
                    let mut item = pair.1.remove(task_index);
                    item.mark_completed();
                    let text = item.text.clone();
                    let ghost itemv = item;
                    pair.1.insert(task_index, item);
                    proof {
                        assert(pair.1@ =~= l0.update(task_index as int, itemv));
                    }
                    let ghost pairv = pair;
                    self.todos.insert(i, pair);
                    proof {
                        assert(self.todos@ =~= t0.update(i as int, pairv));
                        assert forall|v: i64| #[trigger] assoc_find(self.todos@, v) == (if v
                            == chat_id {
                            Some(pairv.1)
                        } else {
                            assoc_find(t0, v)
                        }) by {
                            lemma_assoc_find_update(t0, i as int, pairv, v);
                        }
                        assert(forall|a: int| 0 <= a < t0.len() ==> (#[trigger] t0.update(
                            i as int,
                            pairv,
                        )[a]).0 == t0[a].0);
                        assert(itemv == (TodoItem {
                            completed: true,
                            ..old(self).tasks_of(chat_id)[task_index as int]
                        }));
                    }
                    Ok(text)
                } else {
                    self.todos.insert(i, pair);
                    proof {
                        assert(self.todos@ =~= t0);
                    }
                    Err(StorageError::NotFound)
                }
            },
            None => {
                proof {
                    assert(old(self).tasks_of(chat_id) == Seq::<TodoItem>::empty());
                }
                Err(StorageError::NotFound)
            },
        }
    }

    /// Remove the task at `task_index` and hand back its text; later
    /// tasks shift down one position.  An index at or beyond the list's
    /// length reports `NotFound` and changes nothing.
    pub fn remove_task(&mut self, chat_id: i64, task_index: usize) -> (r: Result<
        String,
        StorageError,
    >)
        requires
            old(self).wf(),
        ensures
            final(self).wf(),
            task_index < old(self).tasks_of(chat_id).len() ==> {
                &&& r == Ok::<String, StorageError>(
                    old(self).tasks_of(chat_id)[task_index as int].text,
                )
                &&& final(self).tasks_of(chat_id) == old(self).tasks_of(chat_id).remove(
                    task_index as int,
                )
                &&& (forall|v: i64| #![all_triggers]
                    v != chat_id ==> final(self).tasks_of(v) == old(self).tasks_of(v))
            },
            task_index >= old(self).tasks_of(chat_id).len() ==> {
                &&& r == Err::<String, StorageError>(StorageError::NotFound)
                &&& final(self).todos@ == old(self).todos@
            },
            final(self).reminders@ == old(self).reminders@,
    {
        let ghost t0 = self.todos@;
        match assoc_index(&self.todos, chat_id) {
            Some(i) => {
                let mut pair = self.todos.remove(i);
                if task_index < pair.1.len() {
                    let ghost l0 = pair.1@;
                    let item = pair.1.remove(task_index);
                    let ghost pairv = pair;
                    self.todos.insert(i, pair);
                    proof {
                        assert(pairv.1@ == l0.remove(task_index as int));
                        assert(self.todos@ =~= t0.update(i as int, pairv));
                        assert forall|v: i64| #[trigger] assoc_find(self.todos@, v) == (if v
                            == chat_id {
                            Some(pairv.1)
                        } else {
                            assoc_find(t0, v)
                        }) by {
                            lemma_assoc_find_update(t0, i as int, pairv, v);
                        }
                        assert(forall|a: int| 0 <= a < t0.len() ==> (#[trigger] t0.update(
                            i as int,
                            pairv,
                        )[a]).0 == t0[a].0);
                    }
                    Ok(item.text)
                } else {
                    self.todos.insert(i, pair);
                    proof {
                        assert(self.todos@ =~= t0);
                    }
                    Err(StorageError::NotFound)
                }
            },
            None => {
                proof {
                    assert(old(self).tasks_of(chat_id) == Seq::<TodoItem>::empty());
                }
                Err(StorageError::NotFound)
            },
        }
    }

    /// Replace the user's list with an empty one.
    pub fn clear_tasks(&mut self, chat_id: i64)
        requires
            old(self).wf(),
        ensures
            final(self).wf(),
            final(self).tasks_of(chat_id) == Seq::<TodoItem>::empty(),
            forall|v: i64| #![all_triggers] v != chat_id ==> final(self).tasks_of(v) == old(self).tasks_of(v),
            final(self).reminders@ == old(self).reminders@,
    {
        let ghost t0 = self.todos@;
        match assoc_index(&self.todos, chat_id) {
            Some(i) => {
                let mut pair = self.todos.remove(i);
                pair.1 = Vec::new();
                let ghost pairv = pair;
                self.todos.insert(i, pair);
                proof {
                    assert(self.todos@ =~= t0.update(i as int, pairv));
                    assert forall|v: i64| #[trigger] assoc_find(self.todos@, v) == (if v == chat_id {
                        Some(pairv.1)
                    } else {
                        assoc_find(t0, v)
                    }) by {
                        lemma_assoc_find_update(t0, i as int, pairv, v);
                    }
                    assert(forall|a: int| 0 <= a < t0.len() ==> (#[trigger] t0.update(
                        i as int,
                        pairv,
                    )[a]).0 == t0[a].0);
                }
            },
            None => {
                let lst: Vec<TodoItem> = Vec::new();
                let ghost pairv = (chat_id, lst);
                self.todos.push((chat_id, lst));
                proof {
                    assert(self.todos@ == t0.push(pairv));
                    assert forall|v: i64| #[trigger] assoc_find(self.todos@, v) == (if v == chat_id {
                        Some(pairv.1)
                    } else {
                        assoc_find(t0, v)
                    }) by {
                        lemma_assoc_find_push(t0, pairv, v);
                        if v == chat_id {
                            lemma_assoc_find_none_when_absent(t0, chat_id);
                        }
                    }
                    assert(forall|a: int| 0 <= a < t0.len() ==> (#[trigger] self.todos@[a]) == t0[
                        a
                    ]);
                    assert(self.todos@[t0.len() as int].0 == chat_id);
                }
            },
        }
    }

    /// Read the user's reminder set (an empty, globally enabled one when
    /// absent).
    pub fn get_user_reminders(&self, chat_id: i64) -> (r: UserReminders)
        requires
            self.wf(),
        ensures
            r.wf(),
            r.global_enabled == self.global_of(chat_id),
            forall|k: CounterType| #![all_triggers] r.lookup(k) == self.config_of(chat_id, k),
    {
        match assoc_index(&self.reminders, chat_id) {
            Some(i) => {
                let r = self.reminders[i].1.clone();
                proof {
                    assert(self.reminders@[i as int].1.wf());
                }
                r
            },
            None => UserReminders::new(),
        }
    }

    /// Store the user's whole reminder set, replacing any previous one.
    pub fn save_user_reminders(&mut self, chat_id: i64, reminders: UserReminders)
        requires
            old(self).wf(),
            reminders.wf(),
        ensures
            final(self).wf(),
            final(self).global_of(chat_id) == reminders.global_enabled,
            forall|k: CounterType| #![all_triggers] final(self).config_of(chat_id, k) == reminders.lookup(k),
            forall|v: i64| #![all_triggers]
                v != chat_id ==> final(self).global_of(v) == old(self).global_of(v)
                    && (forall|k: CounterType| #![all_triggers]
                    final(self).config_of(v, k) == old(self).config_of(v, k)),
            final(self).todos@ == old(self).todos@,
    {
        let ghost r0 = self.reminders@;
        match assoc_index(&self.reminders, chat_id) {
            Some(i) => {
                let _old_entry = self.reminders.remove(i);
                let ghost pairv = (chat_id, reminders);
                self.reminders.insert(i, (chat_id, reminders));
                proof {
                    assert(self.reminders@ =~= r0.update(i as int, pairv));
                    assert forall|v: i64| #[trigger] assoc_find(self.reminders@, v) == (if v
                        == chat_id {
                        Some(pairv.1)
                    } else {
                        assoc_find(r0, v)
                    }) by {
                        lemma_assoc_find_update(r0, i as int, pairv, v);
                    }
                    assert(forall|a: int| 0 <= a < r0.len() ==> (#[trigger] r0.update(
                        i as int,
                        pairv,
                    )[a]).0 == r0[a].0);
                    assert(forall|a: int| 0 <= a < r0.len() && a != i ==> (#[trigger] r0.update(
                        i as int,
                        pairv,
                    )[a]) == r0[a]);
                    assert(r0.update(i as int, pairv)[i as int] == pairv);
                }
            },
            None => {
                let ghost pairv = (chat_id, reminders);
                self.reminders.push((chat_id, reminders));
                proof {
                    assert(self.reminders@ == r0.push(pairv));
                    assert forall|v: i64| #[trigger] assoc_find(self.reminders@, v) == (if v
                        == chat_id {
                        Some(pairv.1)
                    } else {
                        assoc_find(r0, v)
                    }) by {
                        lemma_assoc_find_push(r0, pairv, v);
                        if v == chat_id {
                            lemma_assoc_find_none_when_absent(r0, chat_id);
                        }
                    }
                    assert(forall|a: int| 0 <= a < r0.len() ==> (#[trigger] self.reminders@[a])
                        == r0[a]);
                    assert(self.reminders@[r0.len() as int] == pairv);
                }
            },
        }
    }

    /// Insert or replace one counter's configuration, leaving the user's
    /// other counters and global switch alone.
    pub fn add_counter_reminder(&mut self, chat_id: i64, reminder: CounterReminder)
        requires
            old(self).wf(),
            reminder.wf(),
        ensures
            final(self).wf(),
            final(self).config_of(chat_id, reminder.counter_type) == Some(reminder),
            forall|k: CounterType| #![all_triggers]
                k != reminder.counter_type ==> final(self).config_of(chat_id, k) == old(
                    self,
                ).config_of(chat_id, k),
            final(self).global_of(chat_id) == old(self).global_of(chat_id),
            forall|v: i64| #![all_triggers]
                v != chat_id ==> final(self).global_of(v) == old(self).global_of(v)
                    && (forall|k: CounterType| #![all_triggers]
                    final(self).config_of(v, k) == old(self).config_of(v, k)),
            final(self).todos@ == old(self).todos@,
    {
        let mut user_reminders = self.get_user_reminders(chat_id);
        user_reminders.add_reminder(reminder);
        self.save_user_reminders(chat_id, user_reminders);
        proof {
            assert forall|v: i64| v != chat_id implies self.global_of(v) == old(self).global_of(v)
                && (forall|k: CounterType| #![all_triggers]
                self.config_of(v, k) == old(self).config_of(v, k)) by {}
        }
    }

    /// Flip the user's global reminder switch and report the new
    /// position.
    pub fn toggle_global_reminders(&mut self, chat_id: i64) -> (r: bool)
        requires
            old(self).wf(),
        ensures
            final(self).wf(),
            final(self).global_of(chat_id) == !old(self).global_of(chat_id),
            r == final(self).global_of(chat_id),
            forall|k: CounterType| #![all_triggers] final(self).config_of(chat_id, k) == old(self).config_of(
                chat_id,
                k,
            ),
            forall|v: i64| #![all_triggers]
                v != chat_id ==> final(self).global_of(v) == old(self).global_of(v)
                    && (forall|k: CounterType| #![all_triggers]
                    final(self).config_of(v, k) == old(self).config_of(v, k)),
            final(self).todos@ == old(self).todos@,
    {
        let mut user_reminders = self.get_user_reminders(chat_id);
        let new_state = user_reminders.toggle_global();
        self.save_user_reminders(chat_id, user_reminders);
        new_state
    }

    /// Set the completion flag for one counter's configuration, if the
    /// user has one; otherwise nothing changes.
    pub fn mark_counter_completed(&mut self, chat_id: i64, counter_type: CounterType)
        requires
            old(self).wf(),
        ensures
            final(self).wf(),
            final(self).config_of(chat_id, counter_type) == (match old(self).config_of(
                chat_id,
                counter_type,
            ) {
                Some(c) => Some((CounterReminder { completed_this_month: true, ..c })),
                None => None::<CounterReminder>,
            }),
            forall|k: CounterType| #![all_triggers]
                k != counter_type ==> final(self).config_of(chat_id, k) == old(self).config_of(
                    chat_id,
                    k,
                ),
            final(self).global_of(chat_id) == old(self).global_of(chat_id),
            forall|v: i64| #![all_triggers]
                v != chat_id ==> final(self).global_of(v) == old(self).global_of(v)
                    && (forall|k: CounterType| #![all_triggers]
                    final(self).config_of(v, k) == old(self).config_of(v, k)),
            final(self).todos@ == old(self).todos@,
    {
        let mut user_reminders = self.get_user_reminders(chat_id);
        user_reminders.mark_completed_for(&counter_type);
        self.save_user_reminders(chat_id, user_reminders);
        proof {
            assert forall|v: i64| v != chat_id implies self.global_of(v) == old(self).global_of(v)
                && (forall|k: CounterType| #![all_triggers]
                self.config_of(v, k) == old(self).config_of(v, k)) by {}
        }
    }

    /// Record a delivery for one counter on `today`, if the user has a
    /// configuration for it; otherwise nothing changes.
    pub fn mark_reminder_sent(&mut self, chat_id: i64, counter_type: CounterType, today: &Today)
        requires
            old(self).wf(),
        ensures
            final(self).wf(),
            final(self).config_of(chat_id, counter_type) == (match old(self).config_of(
                chat_id,
                counter_type,
            ) {
                Some(c) => Some((CounterReminder {
                    last_sent_month: Some(today.month_token),
                    last_sent_date: Some(today.date_token),
                    ..c
                })),
                None => None::<CounterReminder>,
            }),
            forall|k: CounterType| #![all_triggers]
                k != counter_type ==> final(self).config_of(chat_id, k) == old(self).config_of(
                    chat_id,
                    k,
                ),
            final(self).global_of(chat_id) == old(self).global_of(chat_id),
            forall|v: i64| #![all_triggers]
                v != chat_id ==> final(self).global_of(v) == old(self).global_of(v)
                    && (forall|k: CounterType| #![all_triggers]
                    final(self).config_of(v, k) == old(self).config_of(v, k)),
            final(self).todos@ == old(self).todos@,
    {
        let mut user_reminders = self.get_user_reminders(chat_id);
        user_reminders.mark_sent_for(&counter_type, today);
        self.save_user_reminders(chat_id, user_reminders);
        proof {
            assert forall|v: i64| v != chat_id implies self.global_of(v) == old(self).global_of(v)
                && (forall|k: CounterType| #![all_triggers]
                self.config_of(v, k) == old(self).config_of(v, k)) by {}
        }
    }

    /// Snapshot every user's reminder set, in stored order.
    pub fn get_all_reminders(&self) -> (r: Vec<(i64, UserReminders)>)
        requires
            self.wf(),
        ensures
            r@.len() == self.reminders@.len(),
            forall|i: int|
                0 <= i < r@.len() ==> (#[trigger] r@[i]).0 == self.reminders@[i].0
                    && r@[i].1.global_enabled == self.reminders@[i].1.global_enabled
                    && r@[i].1.reminders@ == self.reminders@[i].1.reminders@,
            forall|i: int| 0 <= i < r@.len() ==> (#[trigger] r@[i]).1.wf(),
            distinct_keys(r@),
    {
        let mut out: Vec<(i64, UserReminders)> = Vec::new();
        let n = self.reminders.len();
        let mut i: usize = 0;
        while i < n
            invariant
                0 <= i <= n,
                n == self.reminders@.len(),
                out@.len() == i,
                forall|a: int|
                    0 <= a < i ==> (#[trigger] out@[a]).0 == self.reminders@[a].0
                        && out@[a].1.global_enabled == self.reminders@[a].1.global_enabled
                        && out@[a].1.reminders@ == self.reminders@[a].1.reminders@,
            decreases n - i,
        {
            let key = self.reminders[i].0;
            let value = self.reminders[i].1.clone();
            out.push((key, value));
            i = i + 1;
        }
        proof {
            assert(forall|a: int, b: int|
                0 <= a < b < out@.len() ==> (#[trigger] out@[a]).0 != (#[trigger] out@[b]).0);
            assert(self.wf());
        }
        out
    }

    /// Clear the completion flag of every configuration whose
    /// last-notified month is not `current_month`, for every user.
    pub fn reset_monthly_statuses(&mut self, current_month: &str)
        requires
            old(self).wf(),
        ensures
            final(self).wf(),
            forall|u: i64| final(self).global_of(u) == old(self).global_of(u),
            forall|u: i64, k: CounterType|
                final(self).config_of(u, k) == (match old(self).config_of(u, k) {
                    Some(c) => Some(reset_tr(c, current_month@)),
                    None => None::<CounterReminder>,
                }),
            final(self).todos@ == old(self).todos@,
    {
        let ghost r0 = self.reminders@;
        let n = self.reminders.len();
        let mut i: usize = 0;
        while i < n
            invariant
                0 <= i <= n,
                n == r0.len(),
                self.reminders@.len() == r0.len(),
                r0 == old(self).reminders@,
                self.todos@ == old(self).todos@,
                distinct_keys(r0),
                forall|a: int| 0 <= a < r0.len() ==> (#[trigger] r0[a]).1.wf(),
                forall|a: int| 0 <= a < n ==> (#[trigger] self.reminders@[a]).0 == r0[a].0,
                forall|a: int| 0 <= a < i ==> (#[trigger] self.reminders@[a]).1.wf(),
                forall|a: int|
                    0 <= a < i ==> (#[trigger] self.reminders@[a]).1.global_enabled == r0[
                        a
                    ].1.global_enabled && (forall|k: CounterType| #![all_triggers]
                        self.reminders@[a].1.lookup(k) == (match r0[a].1.lookup(k) {
                            Some(c) => Some(reset_tr(c, current_month@)),
                            None => None::<CounterReminder>,
                        })),
                forall|a: int| i <= a < n ==> (#[trigger] self.reminders@[a]) == r0[a],
            decreases n - i,
        {
            let key = self.reminders[i].0;
            let mut entry = self.reminders[i].1.clone();
            proof {
                assert(entry.wf());
            }
            entry.reset_all(current_month);
            self.reminders.set(i, (key, entry));
            i = i + 1;
        }
        proof {
            let r1 = self.reminders@;
            assert forall|u: i64| #[trigger] self.global_of(u) == old(self).global_of(u) by {
                lemma_assoc_reset(r0, r1, u, current_month@);
            }
            assert forall|u: i64, k: CounterType|
                #[trigger] self.config_of(u, k) == (match old(self).config_of(u, k) {
                    Some(c) => Some(reset_tr(c, current_month@)),
                    None => None::<CounterReminder>,
                }) by {
                lemma_assoc_reset(r0, r1, u, current_month@);
            }
        }
    }
}

/// Completing an already-completed task returns its text again and
/// leaves the store's observable data exactly as it was.
pub fn complete_is_idempotent(store: &mut DocumentStore, chat_id: i64, task_index: usize) -> (r:
    Result<String, StorageError>)
    requires
        old(store).wf(),
        task_index < old(store).tasks_of(chat_id).len(),
        old(store).tasks_of(chat_id)[task_index as int].completed,
    ensures
        final(store).wf(),
        r == Ok::<String, StorageError>(old(store).tasks_of(chat_id)[task_index as int].text),
        forall|v: i64| #![all_triggers] final(store).tasks_of(v) == old(store).tasks_of(v),
        final(store).reminders@ == old(store).reminders@,
{
    let r = store.mark_task_completed(chat_id, task_index);
    proof {
        let ts = old(store).tasks_of(chat_id);
        assert(ts.update(
            task_index as int,
            (TodoItem { completed: true, ..ts[task_index as int] }),
        ) =~= ts);
    }
    r
}

/// Clearing a user's list twice meets exactly the contract of clearing
/// it once.
pub fn clear_is_idempotent(store: &mut DocumentStore, chat_id: i64)
    requires
        old(store).wf(),
    ensures
        final(store).wf(),
        final(store).tasks_of(chat_id) == Seq::<TodoItem>::empty(),
        forall|v: i64| #![all_triggers]
            v != chat_id ==> final(store).tasks_of(v) == old(store).tasks_of(v),
        final(store).reminders@ == old(store).reminders@,
{
    store.clear_tasks(chat_id);
    store.clear_tasks(chat_id);
}

/// Adding a task and listing at once shows it as the last entry, not
/// yet completed, after the unchanged earlier entries.
pub fn add_then_list(store: &mut DocumentStore, chat_id: i64, text: &str) -> (r: Vec<TodoItem>)
    requires
        old(store).wf(),
    ensures
        final(store).wf(),
        r@.len() == old(store).tasks_of(chat_id).len() + 1,
        r@.drop_last() == old(store).tasks_of(chat_id),
        r@.last().text@ == trimmed(text@),
        !r@.last().completed,
{
    store.add_task(chat_id, text);
    store.get_tasks(chat_id)
}

/// Removing the only task of a single-entry list leaves it empty.
pub fn remove_only_task(store: &mut DocumentStore, chat_id: i64) -> (r: Result<
    String,
    StorageError,
>)
    requires
        old(store).wf(),
        old(store).tasks_of(chat_id).len() == 1,
    ensures
        final(store).wf(),
        r == Ok::<String, StorageError>(old(store).tasks_of(chat_id)[0].text),
        final(store).tasks_of(chat_id) == Seq::<TodoItem>::empty(),
{
    let r = store.remove_task(chat_id, 0);
    proof {
        assert(old(store).tasks_of(chat_id).remove(0) =~= Seq::<TodoItem>::empty());
    }
    r
}

/// The relation the monthly reset establishes between the old and new
/// reminder tables at one key.
pub open spec fn global_rel(
    r0: Seq<(i64, UserReminders)>,
    r1: Seq<(i64, UserReminders)>,
    u: i64,
    month: Seq<char>,
) -> bool {
    match (assoc_find(r0, u), assoc_find(r1, u)) {
        (Some(a), Some(b)) => b.global_enabled == a.global_enabled && (forall|k: CounterType| #![all_triggers]
            b.lookup(k) == (match a.lookup(k) {
                Some(c) => Some(reset_tr(c, month)),
                None => None::<CounterReminder>,
            })),
        (None, None) => true,
        _ => false,
    }
}

/// Elementwise key-preserving reset of the reminder table maps every
/// lookup accordingly.
proof fn lemma_assoc_reset(
    r0: Seq<(i64, UserReminders)>,
    r1: Seq<(i64, UserReminders)>,
    u: i64,
    month: Seq<char>,
)
    requires
        r0.len() == r1.len(),
        forall|a: int| 0 <= a < r0.len() ==> (#[trigger] r1[a]).0 == r0[a].0,
        forall|a: int|
            0 <= a < r0.len() ==> (#[trigger] r1[a]).1.global_enabled == r0[a].1.global_enabled
                && (forall|k: CounterType| #![all_triggers]
                r1[a].1.lookup(k) == (match r0[a].1.lookup(k) {
                    Some(c) => Some(reset_tr(c, month)),
                    None => None::<CounterReminder>,
                })),
    ensures
        global_rel(r0, r1, u, month),
    decreases r0.len(),
{
    if r0.len() > 0 {
        if r0[0].0 == u {
        } else {
            assert(forall|a: int| 0 <= a < r0.drop_first().len() ==> (#[trigger] r0.drop_first()[a])
                == r0[a + 1]);
            assert(forall|a: int| 0 <= a < r1.drop_first().len() ==> (#[trigger] r1.drop_first()[a])
                == r1[a + 1]);
            lemma_assoc_reset(r0.drop_first(), r1.drop_first(), u, month);
        }
    }
}

} // verus!
