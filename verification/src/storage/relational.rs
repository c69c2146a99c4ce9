//! The row-oriented storage model: flat tables of rows keyed by chat id
//! (and counter kind), mirroring the relational backend's schema.  Each
//! operation is the pure meaning of the statements that backend issues;
//! the contracts match the whole-document store's, which is what makes
//! the two interchangeable.

use vstd::prelude::*;
use crate::todo::TodoItem;
use crate::reminder::{CounterType, CounterReminder, UserReminders, Today, reset_tr, spec_find};
use crate::text::trimmed;
use crate::storage::{StorageError, assoc_find, assoc_index, distinct_keys};
use crate::storage::{lemma_assoc_find_push, lemma_assoc_find_none_when_absent,
    lemma_assoc_find_update};

verus! {

/// The tasks a scan of the rows yields for one user, in row order.
pub open spec fn tasks_in(rows: Seq<(i64, TodoItem)>, u: i64) -> Seq<TodoItem>
    decreases rows.len(),
{
    if rows.len() == 0 {
        Seq::empty()
    } else {
        let rest = tasks_in(rows.drop_first(), u);
        if rows[0].0 == u {
            seq![rows[0].1] + rest
        } else {
            rest
        }
    }
}

/// A row scan splits at any boundary.
pub proof fn lemma_tasks_in_split(rows: Seq<(i64, TodoItem)>, j: int, u: i64)
    requires
        0 <= j <= rows.len(),
    ensures
        tasks_in(rows, u) == tasks_in(rows.take(j), u) + tasks_in(rows.skip(j), u),
    decreases j,
{
    if j == 0 {
        assert(rows.take(0) =~= Seq::<(i64, TodoItem)>::empty());
        assert(rows.skip(0) =~= rows);
        assert(tasks_in(rows.take(0), u) + tasks_in(rows, u) =~= tasks_in(rows, u));
    } else {
        assert(rows.len() > 0);
        lemma_tasks_in_split(rows.drop_first(), j - 1, u);
        assert(rows.take(j).len() > 0);
        assert(rows.take(j)[0] == rows[0]);
        assert(rows.take(j).drop_first() =~= rows.drop_first().take(j - 1));
        assert(rows.skip(j) =~= rows.drop_first().skip(j - 1));
        if rows[0].0 == u {
            assert(tasks_in(rows, u) == seq![rows[0].1] + tasks_in(rows.drop_first(), u));
            assert(tasks_in(rows.take(j), u) == seq![rows[0].1] + tasks_in(
                rows.drop_first().take(j - 1),
                u,
            ));
            assert(seq![rows[0].1] + (tasks_in(rows.drop_first().take(j - 1), u) + tasks_in(
                rows.skip(j),
                u,
            )) =~= (seq![rows[0].1] + tasks_in(rows.drop_first().take(j - 1), u)) + tasks_in(
                rows.skip(j),
                u,
            ));
        }
    }
}

/// The single-row suffix view: scanning one row yields its task exactly
/// for its owner.
proof fn lemma_tasks_in_single(row: (i64, TodoItem), u: i64)
    ensures
        tasks_in(seq![row], u) == (if row.0 == u {
            seq![row.1]
        } else {
            Seq::<TodoItem>::empty()
        }),
{
    assert(seq![row].len() == 1);
    assert(seq![row][0] == row);
    assert(seq![row].drop_first() =~= Seq::<(i64, TodoItem)>::empty());
    assert(tasks_in(Seq::<(i64, TodoItem)>::empty(), u) == Seq::<TodoItem>::empty());
    if row.0 == u {
        assert(tasks_in(seq![row], u) == seq![row.1] + Seq::<TodoItem>::empty());
        assert(seq![row.1] + Seq::<TodoItem>::empty() =~= seq![row.1]);
    }
}

/// Appending a row extends its owner's list and no other.
pub proof fn lemma_tasks_in_push(rows: Seq<(i64, TodoItem)>, row: (i64, TodoItem), u: i64)
    ensures
        tasks_in(rows.push(row), u) == (if row.0 == u {
            tasks_in(rows, u).push(row.1)
        } else {
            tasks_in(rows, u)
        }),
{
    let p = rows.push(row);
    lemma_tasks_in_split(p, rows.len() as int, u);
    assert(p.take(rows.len() as int) =~= rows);
    assert(p.skip(rows.len() as int) =~= seq![row]);
    lemma_tasks_in_single(row, u);
    if row.0 == u {
        assert(tasks_in(rows, u) + seq![row.1] =~= tasks_in(rows, u).push(row.1));
    } else {
        assert(tasks_in(rows, u) + Seq::<TodoItem>::empty() =~= tasks_in(rows, u));
    }
}

/// Find the row holding the `idx`-th task of user `u`.
fn task_row_index(rows: &Vec<(i64, TodoItem)>, u: i64, idx: usize) -> (r: Option<usize>)
    ensures
        match r {
            Some(j) => {
                &&& j < rows@.len()
                &&& rows@[j as int].0 == u
                &&& tasks_in(rows@.take(j as int), u).len() == idx
                &&& idx < tasks_in(rows@, u).len()
                &&& tasks_in(rows@, u)[idx as int] == rows@[j as int].1
            },
            None => tasks_in(rows@, u).len() <= idx,
        },
{
    let n = rows.len();
    let mut count: usize = 0;
    let mut i: usize = 0;
    while i < n
        invariant
            0 <= i <= n,
            n == rows@.len(),
            count == tasks_in(rows@.take(i as int), u).len(),
            count <= idx,
        decreases n - i,
    {
        proof {
            lemma_tasks_in_split(rows@.take(i + 1), i as int, u);
            assert(rows@.take(i + 1).take(i as int) =~= rows@.take(i as int));
            assert(rows@.take(i + 1).skip(i as int) =~= seq![rows@[i as int]]);
            lemma_tasks_in_single(rows@[i as int], u);
        }
        if rows[i].0 == u {
            if count == idx {
                proof {
                    lemma_tasks_in_split(rows@, i as int, u);
                    assert(rows@.skip(i as int).len() > 0);
                    assert(rows@.skip(i as int)[0] == rows@[i as int]);
                    assert(tasks_in(rows@.skip(i as int), u) == seq![rows@[i as int].1]
                        + tasks_in(rows@.skip(i as int).drop_first(), u));
                    assert(tasks_in(rows@, u)[idx as int] == rows@[i as int].1);
                }
                return Some(i);
            }
            count = count + 1;
        }
        i = i + 1;
    }
    proof {
        assert(rows@.take(n as int) =~= rows@);
    }
    None
}

/// Every user's data as flat tables: one row per task, one row per
/// user's global switch, one row per (user, counter kind) configuration.
pub struct RelationalStore {
    pub task_rows: Vec<(i64, TodoItem)>,
    pub user_rows: Vec<(i64, bool)>,
    pub counter_rows: Vec<(i64, CounterReminder)>,
}

/// Find the configuration row for `(u, k)`, front first.
pub open spec fn crow_find(rows: Seq<(i64, CounterReminder)>, u: i64, k: CounterType) -> Option<
    CounterReminder,
>
    decreases rows.len(),
{
    if rows.len() == 0 {
        None
    } else if rows[0].0 == u && rows[0].1.counter_type == k {
        Some(rows[0].1)
    } else {
        crow_find(rows.drop_first(), u, k)
    }
}

/// If the first `i` rows are not the one sought, the search outcome is
/// decided by the rest.
proof fn lemma_crow_find_skip(rows: Seq<(i64, CounterReminder)>, u: i64, k: CounterType, i: int)
    requires
        0 <= i < rows.len(),
        !(rows[i].0 == u && rows[i].1.counter_type == k),
        crow_find(rows, u, k) == crow_find(rows.skip(i), u, k),
    ensures
        crow_find(rows, u, k) == crow_find(rows.skip(i + 1), u, k),
{
    assert(rows.skip(i).len() > 0);
    assert(rows.skip(i)[0] == rows[i]);
    assert(rows.skip(i).drop_first() =~= rows.skip(i + 1));
}

/// Appending a row changes the search only where its key pair was absent.
proof fn lemma_crow_find_push(
    rows: Seq<(i64, CounterReminder)>,
    row: (i64, CounterReminder),
    u: i64,
    k: CounterType,
)
    ensures
        crow_find(rows.push(row), u, k) == (if crow_find(rows, u, k) is Some {
            crow_find(rows, u, k)
        } else if row.0 == u && row.1.counter_type == k {
            Some(row.1)
        } else {
            None::<CounterReminder>
        }),
    decreases rows.len(),
{
    if rows.len() == 0 {
        assert(rows.push(row).len() == 1);
        assert(rows.push(row)[0] == row);
        assert(rows.push(row).drop_first() =~= Seq::<(i64, CounterReminder)>::empty());
        if row.0 == u && row.1.counter_type == k {
            assert(crow_find(rows.push(row), u, k) == Some(row.1));
        } else {
            assert(crow_find(rows.push(row), u, k) == crow_find(
                rows.push(row).drop_first(),
                u,
                k,
            ));
            assert(crow_find(rows.push(row).drop_first(), u, k) is None);
        }
    } else {
        assert(rows.push(row)[0] == rows[0]);
        assert(rows.push(row).drop_first() =~= rows.drop_first().push(row));
        lemma_crow_find_push(rows.drop_first(), row, u, k);
        if rows[0].0 == u && rows[0].1.counter_type == k {
            assert(crow_find(rows, u, k) == Some(rows[0].1));
            assert(crow_find(rows.push(row), u, k) == Some(rows[0].1));
        } else {
            assert(crow_find(rows, u, k) == crow_find(rows.drop_first(), u, k));
            assert(crow_find(rows.push(row), u, k) == crow_find(
                rows.drop_first().push(row),
                u,
                k,
            ));
        }
    }
}

/// Where no row has the key pair, the search finds nothing.
proof fn lemma_crow_find_none_when_absent(
    rows: Seq<(i64, CounterReminder)>,
    u: i64,
    k: CounterType,
)
    requires
        forall|a: int|
            0 <= a < rows.len() ==> !((#[trigger] rows[a]).0 == u && rows[a].1.counter_type == k),
    ensures
        crow_find(rows, u, k) is None,
    decreases rows.len(),
{
    if rows.len() > 0 {
        assert(forall|a: int| 0 <= a < rows.drop_first().len() ==> (#[trigger] rows.drop_first()[a])
            == rows[a + 1]);
        lemma_crow_find_none_when_absent(rows.drop_first(), u, k);
    }
}

/// Where some row has the key pair, the search finds one.
proof fn lemma_crow_find_some_when_present(
    rows: Seq<(i64, CounterReminder)>,
    u: i64,
    k: CounterType,
    a: int,
)
    requires
        0 <= a < rows.len(),
        rows[a].0 == u,
        rows[a].1.counter_type == k,
    ensures
        crow_find(rows, u, k) is Some,
    decreases a,
{
    if rows[0].0 == u && rows[0].1.counter_type == k {
    } else {
        assert(a > 0);
        assert(rows.drop_first()[a - 1] == rows[a]);
        lemma_crow_find_some_when_present(rows.drop_first(), u, k, a - 1);
    }
}

/// Replacing the first row under a key pair with another row under the
/// same pair redirects that search and changes no other.
proof fn lemma_crow_find_update(
    rows: Seq<(i64, CounterReminder)>,
    idx: int,
    row: (i64, CounterReminder),
    u: i64,
    k: CounterType,
)
    requires
        0 <= idx < rows.len(),
        rows[idx].0 == row.0,
        rows[idx].1.counter_type == row.1.counter_type,
        forall|a: int|
            0 <= a < idx ==> !((#[trigger] rows[a]).0 == row.0 && rows[a].1.counter_type
                == row.1.counter_type),
    ensures
        crow_find(rows.update(idx, row), u, k) == (if u == row.0 && k == row.1.counter_type {
            Some(row.1)
        } else {
            crow_find(rows, u, k)
        }),
    decreases rows.len(),
{
    let w = rows.update(idx, row);
    if idx == 0 {
        assert(w[0] == row);
        assert(w.drop_first() =~= rows.drop_first());
    } else {
        assert(w[0] == rows[0]);
        assert(w.drop_first() =~= rows.drop_first().update(idx - 1, row));
        assert(forall|a: int| 0 <= a < idx - 1 ==> (#[trigger] rows.drop_first()[a]) == rows[a
            + 1]);
        assert(rows.drop_first()[idx - 1] == rows[idx]);
        lemma_crow_find_update(rows.drop_first(), idx - 1, row, u, k);
    }
}

/// Elementwise monthly reset of the configuration table maps every
/// search result.
proof fn lemma_crow_find_reset(
    r0: Seq<(i64, CounterReminder)>,
    r1: Seq<(i64, CounterReminder)>,
    u: i64,
    k: CounterType,
    month: Seq<char>,
)
    requires
        r0.len() == r1.len(),
        forall|a: int| 0 <= a < r0.len() ==> (#[trigger] r1[a]).0 == r0[a].0,
        forall|a: int| 0 <= a < r0.len() ==> (#[trigger] r1[a]).1 == reset_tr(r0[a].1, month),
    ensures
        crow_find(r1, u, k) == (match crow_find(r0, u, k) {
            Some(c) => Some(reset_tr(c, month)),
            None => None::<CounterReminder>,
        }),
    decreases r0.len(),
{
    if r0.len() > 0 {
        assert(r1[0].1 == reset_tr(r0[0].1, month));
        assert(r1[0].1.counter_type == r0[0].1.counter_type);
        assert(forall|a: int| 0 <= a < r0.drop_first().len() ==> (#[trigger] r0.drop_first()[a])
            == r0[a + 1]);
        assert(forall|a: int| 0 <= a < r1.drop_first().len() ==> (#[trigger] r1.drop_first()[a])
            == r1[a + 1]);
        lemma_crow_find_reset(r0.drop_first(), r1.drop_first(), u, k, month);
    }
}

/// Scan the configuration table for a key pair, reporting its position.
fn crow_index(rows: &Vec<(i64, CounterReminder)>, u: i64, k: &CounterType) -> (r: Option<usize>)
    ensures
        match r {
            Some(j) => {
                &&& j < rows@.len()
                &&& rows@[j as int].0 == u
                &&& rows@[j as int].1.counter_type == *k
                &&& (forall|a: int|
                    0 <= a < j ==> !((#[trigger] rows@[a]).0 == u && rows@[a].1.counter_type
                        == *k))
                &&& crow_find(rows@, u, *k) == Some(rows@[j as int].1)
            },
            None => {
                &&& crow_find(rows@, u, *k) is None
                &&& (forall|a: int|
                    0 <= a < rows@.len() ==> !((#[trigger] rows@[a]).0 == u
                        && rows@[a].1.counter_type == *k))
            },
        },
{
    let n = rows.len();
    proof {
        assert(rows@.skip(0) =~= rows@);
    }
    let mut i: usize = 0;
    while i < n
        invariant
            0 <= i <= n,
            n == rows@.len(),
            forall|a: int|
                0 <= a < i ==> !((#[trigger] rows@[a]).0 == u && rows@[a].1.counter_type == *k),
            crow_find(rows@, u, *k) == crow_find(rows@.skip(i as int), u, *k),
        decreases n - i,
    {
        if rows[i].0 == u && rows[i].1.counter_type == *k {
            proof {
                assert(rows@.skip(i as int)[0] == rows@[i as int]);
            }
            return Some(i);
        }
        proof {
            lemma_crow_find_skip(rows@, u, *k, i as int);
        }
        i = i + 1;
    }
    proof {
        assert(rows@.skip(n as int) =~= Seq::<(i64, CounterReminder)>::empty());
    }
    None
}

impl RelationalStore {
    /// Switch rows are keyed by user; configuration rows by user and
    /// kind; every configuration is well-formed.
    pub open spec fn wf(self) -> bool {
        &&& distinct_keys(self.user_rows@)
        &&& (forall|a: int, b: int|
            0 <= a < b < self.counter_rows@.len() ==> !((#[trigger] self.counter_rows@[a]).0 == (
            #[trigger] self.counter_rows@[b]).0 && self.counter_rows@[a].1.counter_type
                == self.counter_rows@[b].1.counter_type))
        &&& (forall|a: int|
            0 <= a < self.counter_rows@.len() ==> (#[trigger] self.counter_rows@[a]).1.wf())
    }

    /// The user's current ordered task list.
    pub open spec fn tasks_of(self, user: i64) -> Seq<TodoItem> {
        tasks_in(self.task_rows@, user)
    }

    /// The user's global reminder switch (on when no row exists).
    pub open spec fn global_of(self, user: i64) -> bool {
        match assoc_find(self.user_rows@, user) {
            Some(b) => b,
            None => true,
        }
    }

    /// The user's configuration for a counter kind, if any.
    pub open spec fn config_of(self, user: i64, k: CounterType) -> Option<CounterReminder> {
        crow_find(self.counter_rows@, user, k)
    }

    /// Empty tables.
    pub fn new() -> (r: Self)
        ensures
            r.wf(),
            forall|u: i64| r.tasks_of(u) == Seq::<TodoItem>::empty(),
            forall|u: i64| r.global_of(u),
            forall|u: i64, k: CounterType| r.config_of(u, k) is None,
    {
        RelationalStore { task_rows: Vec::new(), user_rows: Vec::new(), counter_rows: Vec::new() }
    }

    /// Insert one task row with the trimmed text.
    pub fn add_task(&mut self, chat_id: i64, text: &str)
        requires
            old(self).wf(),
        ensures
            final(self).wf(),
            final(self).tasks_of(chat_id).len() == old(self).tasks_of(chat_id).len() + 1,
            final(self).tasks_of(chat_id).drop_last() == old(self).tasks_of(chat_id),
            final(self).tasks_of(chat_id).last().text@ == trimmed(text@),
            !final(self).tasks_of(chat_id).last().completed,
            forall|v: i64| #![all_triggers]
                v != chat_id ==> final(self).tasks_of(v) == old(self).tasks_of(v),
            final(self).user_rows@ == old(self).user_rows@,
            final(self).counter_rows@ == old(self).counter_rows@,
    {
        let item = TodoItem::new(crate::text::trim_str(text));
        self.insert_task(chat_id, item);
        proof {
            assert(final(self).tasks_of(chat_id).drop_last() =~= old(self).tasks_of(chat_id));
        }
    }

    /// Insert one given record as a row: the deterministic core of
    /// `add_task`, taking the generated record as an input.
    pub fn insert_task(&mut self, chat_id: i64, item: TodoItem)
        requires
            old(self).wf(),
        ensures
            final(self).wf(),
            final(self).tasks_of(chat_id) == old(self).tasks_of(chat_id).push(item),
            forall|v: i64| #![all_triggers]
                v != chat_id ==> final(self).tasks_of(v) == old(self).tasks_of(v),
            final(self).user_rows@ == old(self).user_rows@,
            final(self).counter_rows@ == old(self).counter_rows@,
    {
        let ghost r0 = self.task_rows@;
        let ghost rowv = (chat_id, item);
        self.task_rows.push((chat_id, item));
        proof {
            assert forall|v: i64| #[trigger] tasks_in(self.task_rows@, v) == (if v == chat_id {
                tasks_in(r0, v).push(rowv.1)
            } else {
                tasks_in(r0, v)
            }) by {
                lemma_tasks_in_push(r0, rowv, v);
            }
        }
    }

    /// Read the user's tasks in row order.
    pub fn get_tasks(&self, chat_id: i64) -> (r: Vec<TodoItem>)
        ensures
            r@ == self.tasks_of(chat_id),
    {
        let n = self.task_rows.len();
        let mut out: Vec<TodoItem> = Vec::new();
        let mut i: usize = 0;
        while i < n
            invariant
                0 <= i <= n,
                n == self.task_rows@.len(),
                out@ == tasks_in(self.task_rows@.take(i as int), chat_id),
            decreases n - i,
        {
            proof {
                lemma_tasks_in_split(self.task_rows@.take(i + 1), i as int, chat_id);
                assert(self.task_rows@.take(i + 1).take(i as int) =~= self.task_rows@.take(
                    i as int,
                ));
                assert(self.task_rows@.take(i + 1).skip(i as int) =~= seq![
                    self.task_rows@[i as int]
                ]);
                lemma_tasks_in_single(self.task_rows@[i as int], chat_id);
            }
            if self.task_rows[i].0 == chat_id {
                out.push(self.task_rows[i].1.clone());
                proof {
                    assert(out@ =~= tasks_in(self.task_rows@.take(i + 1), chat_id));
                }
            }
            i = i + 1;
        }
        proof {
            assert(self.task_rows@.take(n as int) =~= self.task_rows@);
        }
        out
    }

    /// Flip the completion flag of the user's `task_index`-th task.
    pub fn mark_task_completed(&mut self, chat_id: i64, task_index: usize) -> (r: Result<
        String,
        StorageError,
    >)
        requires
            old(self).wf(),
        ensures
            final(self).wf(),
            task_index < old(self).tasks_of(chat_id).len() ==> {
                &&& r == Ok::<String, StorageError>(
                    old(self).tasks_of(chat_id)[task_index as int].text,
                )
                &&& final(self).tasks_of(chat_id) == old(self).tasks_of(chat_id).update(
                    task_index as int,
                    (TodoItem {
                        completed: true,
                        ..old(self).tasks_of(chat_id)[task_index as int]
                    }),
                )
                &&& (forall|v: i64| #![all_triggers]
                    v != chat_id ==> final(self).tasks_of(v) == old(self).tasks_of(v))
            },
            task_index >= old(self).tasks_of(chat_id).len() ==> {
                &&& r == Err::<String, StorageError>(StorageError::NotFound)
                &&& final(self).task_rows@ == old(self).task_rows@
            },
            final(self).user_rows@ == old(self).user_rows@,
            final(self).counter_rows@ == old(self).counter_rows@,
    {
        let ghost r0 = self.task_rows@;
        match task_row_index(&self.task_rows, chat_id, task_index) {
            Some(j) => {
                let mut item = self.task_rows[j].1.clone();
                item.mark_completed();
                let text = item.text.clone();
                let ghost itemv = item;
                self.task_rows.set(j, (chat_id, item));
                proof {
                    let w = self.task_rows@;
                    assert(w == r0.update(j as int, (chat_id, itemv)));
                    assert(itemv == (TodoItem { completed: true, ..r0[j as int].1 }));
                    assert forall|v: i64| #[trigger] tasks_in(w, v) == (if v == chat_id {
                        tasks_in(r0, v).update(task_index as int, itemv)
                    } else {
                        tasks_in(r0, v)
                    }) by {
                        lemma_tasks_in_split(r0, j as int, v);
                        lemma_tasks_in_split(w, j as int, v);
                        assert(w.take(j as int) =~= r0.take(j as int));
                        assert(w.skip(j as int).len() > 0);
                        assert(w.skip(j as int)[0] == (chat_id, itemv));
                        assert(w.skip(j as int).drop_first() =~= r0.skip(j as int).drop_first());
                        assert(r0.skip(j as int)[0] == r0[j as int]);
                        assert(tasks_in(r0.skip(j as int), v) == (if v == chat_id {
                            seq![r0[j as int].1] + tasks_in(r0.skip(j as int).drop_first(), v)
                        } else {
                            tasks_in(r0.skip(j as int).drop_first(), v)
                        }));
                        assert(tasks_in(w.skip(j as int), v) == (if v == chat_id {
                            seq![itemv] + tasks_in(w.skip(j as int).drop_first(), v)
                        } else {
                            tasks_in(w.skip(j as int).drop_first(), v)
                        }));
                        if v == chat_id {
                            assert(tasks_in(w, v) =~= tasks_in(r0, v).update(
                                task_index as int,
                                itemv,
                            ));
                        }
                    }
                }
                Ok(text)
            },
            None => Err(StorageError::NotFound),
        }
    }

    /// Delete the row of the user's `task_index`-th task.
    pub fn remove_task(&mut self, chat_id: i64, task_index: usize) -> (r: Result<
        String,
        StorageError,
    >)
        requires
            old(self).wf(),
        ensures
            final(self).wf(),
            task_index < old(self).tasks_of(chat_id).len() ==> {
                &&& r == Ok::<String, StorageError>(
                    old(self).tasks_of(chat_id)[task_index as int].text,
                )
                &&& final(self).tasks_of(chat_id) == old(self).tasks_of(chat_id).remove(
                    task_index as int,
                )
                &&& (forall|v: i64| #![all_triggers]
                    v != chat_id ==> final(self).tasks_of(v) == old(self).tasks_of(v))
            },
            task_index >= old(self).tasks_of(chat_id).len() ==> {
                &&& r == Err::<String, StorageError>(StorageError::NotFound)
                &&& final(self).task_rows@ == old(self).task_rows@
            },
            final(self).user_rows@ == old(self).user_rows@,
            final(self).counter_rows@ == old(self).counter_rows@,
    {
        let ghost r0 = self.task_rows@;
        match task_row_index(&self.task_rows, chat_id, task_index) {
            Some(j) => {
                let row = self.task_rows.remove(j);
                proof {
                    let w = self.task_rows@;
                    assert(w == r0.remove(j as int));
                    assert forall|v: i64| #[trigger] tasks_in(w, v) == (if v == chat_id {
                        tasks_in(r0, v).remove(task_index as int)
                    } else {
                        tasks_in(r0, v)
                    }) by {
                        lemma_tasks_in_split(r0, j as int, v);
                        lemma_tasks_in_split(w, j as int, v);
                        assert(w.take(j as int) =~= r0.take(j as int));
                        assert(w.skip(j as int) =~= r0.skip(j as int).drop_first());
                        assert(r0.skip(j as int)[0] == r0[j as int]);
                        assert(tasks_in(r0.skip(j as int), v) == (if v == chat_id {
                            seq![r0[j as int].1] + tasks_in(r0.skip(j as int).drop_first(), v)
                        } else {
                            tasks_in(r0.skip(j as int).drop_first(), v)
                        }));
                        if v == chat_id {
                            assert(tasks_in(w, v) =~= tasks_in(r0, v).remove(task_index as int));
                        }
                    }
                }
                Ok(row.1.text)
            },
            None => Err(StorageError::NotFound),
        }
    }

    /// Delete every task row of the user.
    pub fn clear_tasks(&mut self, chat_id: i64)
        requires
            old(self).wf(),
        ensures
            final(self).wf(),
            final(self).tasks_of(chat_id) == Seq::<TodoItem>::empty(),
            forall|v: i64| #![all_triggers]
                v != chat_id ==> final(self).tasks_of(v) == old(self).tasks_of(v),
            final(self).user_rows@ == old(self).user_rows@,
            final(self).counter_rows@ == old(self).counter_rows@,
    {
        let ghost r0 = self.task_rows@;
        let n = self.task_rows.len();
        let mut out: Vec<(i64, TodoItem)> = Vec::new();
        let mut i: usize = 0;
        while i < n
            invariant
                0 <= i <= n,
                n == r0.len(),
                self.task_rows@ == r0,
                forall|v: i64|
                    #[trigger] tasks_in(out@, v) == (if v == chat_id {
                        Seq::<TodoItem>::empty()
                    } else {
                        tasks_in(r0.take(i as int), v)
                    }),
            decreases n - i,
        {
            let ghost out0 = out@;
            let keep = self.task_rows[i].0 != chat_id;
            if keep {
                let key = self.task_rows[i].0;
                let value = self.task_rows[i].1.clone();
                out.push((key, value));
            }
            proof {
                assert forall|v: i64| #[trigger] tasks_in(out@, v) == (if v == chat_id {
                    Seq::<TodoItem>::empty()
                } else {
                    tasks_in(r0.take(i + 1), v)
                }) by {
                    lemma_tasks_in_split(r0.take(i + 1), i as int, v);
                    assert(r0.take(i + 1).take(i as int) =~= r0.take(i as int));
                    assert(r0.take(i + 1).skip(i as int) =~= seq![r0[i as int]]);
                    lemma_tasks_in_single(r0[i as int], v);
                    if keep {
                        lemma_tasks_in_push(out0, (r0[i as int].0, r0[i as int].1), v);
                        assert(out@ == out0.push(r0[i as int]));
                        if v != chat_id && r0[i as int].0 == v {
                            assert(tasks_in(r0.take(i + 1), v) =~= tasks_in(r0.take(i as int), v)
                                + seq![r0[i as int].1]);
                            assert(tasks_in(out@, v) =~= tasks_in(out0, v).push(r0[i as int].1));
                        }
                    }
                }
            }
            i = i + 1;
        }
        proof {
            assert(r0.take(n as int) =~= r0);
        }
        self.task_rows = out;
    }

    /// Set the user's global-switch row to `value`, inserting it if
    /// missing.
    fn upsert_global_row(&mut self, chat_id: i64, value: bool)
        requires
            old(self).wf(),
        ensures
            final(self).wf(),
            final(self).global_of(chat_id) == value,
            forall|v: i64| #![all_triggers]
                v != chat_id ==> final(self).global_of(v) == old(self).global_of(v),
            final(self).task_rows@ == old(self).task_rows@,
            final(self).counter_rows@ == old(self).counter_rows@,
    {
        let ghost u0 = self.user_rows@;
        match assoc_index(&self.user_rows, chat_id) {
            Some(i) => {
                self.user_rows.set(i, (chat_id, value));
                proof {
                    assert(self.user_rows@ == u0.update(i as int, (chat_id, value)));
                    assert forall|v: i64| #[trigger] assoc_find(self.user_rows@, v) == (if v
                        == chat_id {
                        Some(value)
                    } else {
                        assoc_find(u0, v)
                    }) by {
                        lemma_assoc_find_update(u0, i as int, (chat_id, value), v);
                    }
                    assert(forall|a: int| 0 <= a < u0.len() ==> (#[trigger] u0.update(
                        i as int,
                        (chat_id, value),
                    )[a]).0 == u0[a].0);
                }
            },
            None => {
                self.user_rows.push((chat_id, value));
                proof {
                    assert(self.user_rows@ == u0.push((chat_id, value)));
                    assert forall|v: i64| #[trigger] assoc_find(self.user_rows@, v) == (if v
                        == chat_id {
                        Some(value)
                    } else {
                        assoc_find(u0, v)
                    }) by {
                        lemma_assoc_find_push(u0, (chat_id, value), v);
                        if v == chat_id {
                            lemma_assoc_find_none_when_absent(u0, chat_id);
                        }
                    }
                    assert(forall|a: int| 0 <= a < u0.len() ==> (#[trigger] self.user_rows@[a])
                        == u0[a]);
                    assert(self.user_rows@[u0.len() as int].0 == chat_id);
                }
            },
        }
    }

    /// Insert or replace the row for one (user, kind) pair.
    fn upsert_counter_row(&mut self, chat_id: i64, config: CounterReminder)
        requires
            old(self).wf(),
            config.wf(),
        ensures
            final(self).wf(),
            final(self).config_of(chat_id, config.counter_type) == Some(config),
            forall|u: i64, k: CounterType| #![all_triggers]
                !(u == chat_id && k == config.counter_type) ==> final(self).config_of(u, k) == old(
                    self,
                ).config_of(u, k),
            final(self).task_rows@ == old(self).task_rows@,
            final(self).user_rows@ == old(self).user_rows@,
    {
        let ghost c0 = self.counter_rows@;
        match crow_index(&self.counter_rows, chat_id, &config.counter_type) {
            Some(j) => {
                self.counter_rows.set(j, (chat_id, config));
                proof {
                    assert(self.counter_rows@ == c0.update(j as int, (chat_id, config)));
                    assert forall|u: i64, k: CounterType| #[trigger] crow_find(
                        self.counter_rows@,
                        u,
                        k,
                    ) == (if u == chat_id && k == config.counter_type {
                        Some(config)
                    } else {
                        crow_find(c0, u, k)
                    }) by {
                        lemma_crow_find_update(c0, j as int, (chat_id, config), u, k);
                    }
                    assert(forall|a: int| 0 <= a < c0.len() ==> (#[trigger] c0.update(
                        j as int,
                        (chat_id, config),
                    )[a]).0 == c0[a].0 && c0.update(j as int, (chat_id, config))[a].1.counter_type
                        == c0[a].1.counter_type);
                    assert(forall|a: int| 0 <= a < c0.len() && a != j ==> (#[trigger] c0.update(
                        j as int,
                        (chat_id, config),
                    )[a]) == c0[a]);
                    assert(c0.update(j as int, (chat_id, config))[j as int].1 == config);
                    assert(final(self).wf());
                }
            },
            None => {
                self.counter_rows.push((chat_id, config));
                proof {
                    assert(self.counter_rows@ == c0.push((chat_id, config)));
                    assert forall|u: i64, k: CounterType| #[trigger] crow_find(
                        self.counter_rows@,
                        u,
                        k,
                    ) == (if u == chat_id && k == config.counter_type {
                        Some(config)
                    } else {
                        crow_find(c0, u, k)
                    }) by {
                        lemma_crow_find_push(c0, (chat_id, config), u, k);
                        if u == chat_id && k == config.counter_type {
                            lemma_crow_find_none_when_absent(c0, chat_id, config.counter_type);
                        }
                    }
                    assert(forall|a: int| 0 <= a < c0.len() ==> (#[trigger] self.counter_rows@[a])
                        == c0[a]);
                    assert(self.counter_rows@[c0.len() as int] == (chat_id, config));
                    assert(final(self).wf());
                }
            },
        }
    }

    /// Assemble the user's reminder set from the switch row and the
    /// user's configuration rows.
    pub fn get_user_reminders(&self, chat_id: i64) -> (r: UserReminders)
        requires
            self.wf(),
        ensures
            r.wf(),
            r.global_enabled == self.global_of(chat_id),
            forall|k: CounterType| #![all_triggers] r.lookup(k) == self.config_of(chat_id, k),
    {
        let global = match assoc_index(&self.user_rows, chat_id) {
            Some(i) => self.user_rows[i].1,
            None => true,
        };
        let mut r = UserReminders::new();
        r.global_enabled = global;
        let water = CounterType::Water;
        if let Some(j) = crow_index(&self.counter_rows, chat_id, &water) {
            proof {
                assert(self.counter_rows@[j as int].1.wf());
            }
            r.add_reminder(self.counter_rows[j].1.clone());
        }
        let electricity = CounterType::Electricity;
        if let Some(j) = crow_index(&self.counter_rows, chat_id, &electricity) {
            proof {
                assert(self.counter_rows@[j as int].1.wf());
            }
            r.add_reminder(self.counter_rows[j].1.clone());
        }
        proof {
            assert forall|k: CounterType| #![all_triggers] r.lookup(k) == self.config_of(
                chat_id,
                k,
            ) by {
                if k == CounterType::Water {
                } else {
                    assert(k == CounterType::Electricity);
                }
            }
        }
        r
    }

    /// Delete every configuration row of the user.
    fn delete_counter_rows(&mut self, chat_id: i64)
        requires
            old(self).wf(),
        ensures
            final(self).wf(),
            forall|k: CounterType| #![all_triggers] final(self).config_of(chat_id, k) is None,
            forall|u: i64, k: CounterType| #![all_triggers]
                u != chat_id ==> final(self).config_of(u, k) == old(self).config_of(u, k),
            final(self).task_rows@ == old(self).task_rows@,
            final(self).user_rows@ == old(self).user_rows@,
    {
        let ghost c0 = self.counter_rows@;
        let n = self.counter_rows.len();
        let mut out: Vec<(i64, CounterReminder)> = Vec::new();
        let mut i: usize = 0;
        while i < n
            invariant
                0 <= i <= n,
                n == c0.len(),
                self.counter_rows@ == c0,
                c0 == old(self).counter_rows@,
                self.task_rows@ == old(self).task_rows@,
                self.user_rows@ == old(self).user_rows@,
                distinct_keys(self.user_rows@),
                forall|a: int, b: int|
                    0 <= a < b < c0.len() ==> !((#[trigger] c0[a]).0 == (#[trigger] c0[b]).0
                        && c0[a].1.counter_type == c0[b].1.counter_type),
                forall|a: int| 0 <= a < c0.len() ==> (#[trigger] c0[a]).1.wf(),
                forall|a: int, b: int|
                    0 <= a < b < out@.len() ==> !((#[trigger] out@[a]).0 == (#[trigger] out@[b]).0
                        && out@[a].1.counter_type == out@[b].1.counter_type),
                forall|a: int| 0 <= a < out@.len() ==> (#[trigger] out@[a]).1.wf(),
                forall|a: int| 0 <= a < out@.len() ==> (#[trigger] out@[a]).0 != chat_id,
                forall|u: i64, k: CounterType|
                    #[trigger] crow_find(out@, u, k) == (if u == chat_id {
                        None::<CounterReminder>
                    } else {
                        crow_find(c0.take(i as int), u, k)
                    }),
            decreases n - i,
        {
            let ghost out0 = out@;
            let ghost row = c0[i as int];
            let keep = self.counter_rows[i].0 != chat_id;
            proof {
                assert(c0.take(i + 1).drop_last() =~= c0.take(i as int));
                assert(c0.take(i + 1).last() == row);
                assert(c0.take(i as int).push(row) =~= c0.take(i + 1));
            }
            if keep {
                proof {
                    // The row's key pair occurs nowhere earlier, so it is
                    // absent from what was kept so far.
                    assert(forall|a: int|
                        0 <= a < i ==> !((#[trigger] c0.take(i as int)[a]).0 == row.0
                            && c0.take(i as int)[a].1.counter_type == row.1.counter_type));
                    lemma_crow_find_none_when_absent(
                        c0.take(i as int),
                        row.0,
                        row.1.counter_type,
                    );
                    assert(crow_find(out0, row.0, row.1.counter_type) is None);
                    assert forall|a: int| 0 <= a < out0.len() implies !((#[trigger] out0[a]).0
                        == row.0 && out0[a].1.counter_type == row.1.counter_type) by {
                        if out0[a].0 == row.0 && out0[a].1.counter_type == row.1.counter_type {
                            lemma_crow_find_some_when_present(
                                out0,
                                row.0,
                                row.1.counter_type,
                                a,
                            );
                        }
                    }
                }
                let key = self.counter_rows[i].0;
                let value = self.counter_rows[i].1.clone();
                out.push((key, value));
                proof {
                    assert(out@ == out0.push(row));
                    assert forall|u: i64, k: CounterType| #[trigger] crow_find(out@, u, k) == (
                    if u == chat_id {
                        None::<CounterReminder>
                    } else {
                        crow_find(c0.take(i + 1), u, k)
                    }) by {
                        lemma_crow_find_push(out0, row, u, k);
                        lemma_crow_find_push(c0.take(i as int), row, u, k);
                    }
                }
            } else {
                proof {
                    assert forall|u: i64, k: CounterType| #[trigger] crow_find(out@, u, k) == (
                    if u == chat_id {
                        None::<CounterReminder>
                    } else {
                        crow_find(c0.take(i + 1), u, k)
                    }) by {
                        lemma_crow_find_push(c0.take(i as int), row, u, k);
                    }
                }
            }
            i = i + 1;
        }
        proof {
            assert(c0.take(n as int) =~= c0);
        }
        self.counter_rows = out;
    }

    /// Store the user's whole reminder set, replacing any previous one:
    /// the switch row is written, the user's configuration rows are
    /// deleted, and one row per configuration in the set is inserted.
    pub fn save_user_reminders(&mut self, chat_id: i64, reminders: UserReminders)
        requires
            old(self).wf(),
            reminders.wf(),
        ensures
            final(self).wf(),
            final(self).global_of(chat_id) == reminders.global_enabled,
            forall|k: CounterType| #![all_triggers]
                final(self).config_of(chat_id, k) == reminders.lookup(k),
            forall|v: i64| #![all_triggers]
                v != chat_id ==> final(self).global_of(v) == old(self).global_of(v)
                    && (forall|k: CounterType| #![all_triggers]
                    final(self).config_of(v, k) == old(self).config_of(v, k)),
            final(self).task_rows@ == old(self).task_rows@,
    {
        self.upsert_global_row(chat_id, reminders.global_enabled);
        self.delete_counter_rows(chat_id);
        let ghost mid = *self;
        let n = reminders.reminders.len();
        let ghost rs = reminders.reminders@;
        let mut j: usize = 0;
        while j < n
            invariant
                0 <= j <= n,
                n == rs.len(),
                rs == reminders.reminders@,
                reminders.wf(),
                self.wf(),
                mid.wf(),
                forall|k: CounterType| #![all_triggers] mid.config_of(chat_id, k) is None,
                self.task_rows@ == mid.task_rows@,
                self.user_rows@ == mid.user_rows@,
                forall|k: CounterType| #![all_triggers]
                    self.config_of(chat_id, k) == spec_find(rs.take(j as int), k),
                forall|v: i64, k: CounterType| #![all_triggers]
                    v != chat_id ==> self.config_of(v, k) == mid.config_of(v, k),
            decreases n - j,
        {
            let c = reminders.reminders[j].clone();
            proof {
                assert(rs[j as int].wf());
                assert(forall|a: int| 0 <= a < j ==> (#[trigger] rs[a]).counter_type != rs[
                    j as int
                ].counter_type);
                crate::reminder::lemma_find_none_when_absent(
                    rs.take(j as int),
                    rs[j as int].counter_type,
                );
            }
            self.upsert_counter_row(chat_id, c);
            proof {
                assert(rs.take(j + 1).drop_last() =~= rs.take(j as int));
                assert(rs.take(j + 1).last() == rs[j as int]);
                assert forall|k: CounterType| #![all_triggers] self.config_of(chat_id, k)
                    == spec_find(rs.take(j + 1), k) by {
                    crate::reminder::lemma_find_push(rs.take(j as int), rs[j as int], k);
                    assert(rs.take(j as int).push(rs[j as int]) =~= rs.take(j + 1));
                }
            }
            j = j + 1;
        }
        proof {
            assert(rs.take(n as int) =~= rs);
        }
    }

    /// Insert or replace one counter's configuration.
    pub fn add_counter_reminder(&mut self, chat_id: i64, reminder: CounterReminder)
        requires
            old(self).wf(),
            reminder.wf(),
        ensures
            final(self).wf(),
            final(self).config_of(chat_id, reminder.counter_type) == Some(reminder),
            forall|k: CounterType| #![all_triggers]
                k != reminder.counter_type ==> final(self).config_of(chat_id, k) == old(
                    self,
                ).config_of(chat_id, k),
            final(self).global_of(chat_id) == old(self).global_of(chat_id),
            forall|v: i64| #![all_triggers]
                v != chat_id ==> final(self).global_of(v) == old(self).global_of(v)
                    && (forall|k: CounterType| #![all_triggers]
                    final(self).config_of(v, k) == old(self).config_of(v, k)),
            final(self).task_rows@ == old(self).task_rows@,
    {
        self.upsert_counter_row(chat_id, reminder);
    }

    /// Flip the user's global switch row and report the new position.
    pub fn toggle_global_reminders(&mut self, chat_id: i64) -> (r: bool)
        requires
            old(self).wf(),
        ensures
            final(self).wf(),
            final(self).global_of(chat_id) == !old(self).global_of(chat_id),
            r == final(self).global_of(chat_id),
            forall|k: CounterType| #![all_triggers]
                final(self).config_of(chat_id, k) == old(self).config_of(chat_id, k),
            forall|v: i64| #![all_triggers]
                v != chat_id ==> final(self).global_of(v) == old(self).global_of(v)
                    && (forall|k: CounterType| #![all_triggers]
                    final(self).config_of(v, k) == old(self).config_of(v, k)),
            final(self).task_rows@ == old(self).task_rows@,
    {
        let current = match assoc_index(&self.user_rows, chat_id) {
            Some(i) => self.user_rows[i].1,
            None => true,
        };
        let new_state = !current;
        self.upsert_global_row(chat_id, new_state);
        new_state
    }

    /// Set the completion flag on the row for one (user, kind) pair, if
    /// it exists.
    pub fn mark_counter_completed(&mut self, chat_id: i64, counter_type: CounterType)
        requires
            old(self).wf(),
        ensures
            final(self).wf(),
            final(self).config_of(chat_id, counter_type) == (match old(self).config_of(
                chat_id,
                counter_type,
            ) {
                Some(c) => Some((CounterReminder { completed_this_month: true, ..c })),
                None => None::<CounterReminder>,
            }),
            forall|k: CounterType| #![all_triggers]
                k != counter_type ==> final(self).config_of(chat_id, k) == old(self).config_of(
                    chat_id,
                    k,
                ),
            final(self).global_of(chat_id) == old(self).global_of(chat_id),
            forall|v: i64| #![all_triggers]
                v != chat_id ==> final(self).global_of(v) == old(self).global_of(v)
                    && (forall|k: CounterType| #![all_triggers]
                    final(self).config_of(v, k) == old(self).config_of(v, k)),
            final(self).task_rows@ == old(self).task_rows@,
    {
        let ghost c0 = self.counter_rows@;
        match crow_index(&self.counter_rows, chat_id, &counter_type) {
            Some(j) => {
                let mut c = self.counter_rows[j].1.clone();
                c.mark_completed();
                proof {
                    assert(c == (CounterReminder {
                        completed_this_month: true,
                        ..c0[j as int].1
                    }));
                }
                let ghost cv = c;
                self.counter_rows.set(j, (chat_id, c));
                proof {
                    assert(self.counter_rows@ == c0.update(j as int, (chat_id, cv)));
                    assert forall|u: i64, k: CounterType| #[trigger] crow_find(
                        self.counter_rows@,
                        u,
                        k,
                    ) == (if u == chat_id && k == counter_type {
                        Some(cv)
                    } else {
                        crow_find(c0, u, k)
                    }) by {
                        lemma_crow_find_update(c0, j as int, (chat_id, cv), u, k);
                    }
                    assert(forall|a: int| 0 <= a < c0.len() ==> (#[trigger] c0.update(
                        j as int,
                        (chat_id, cv),
                    )[a]).0 == c0[a].0 && c0.update(j as int, (chat_id, cv))[a].1.counter_type
                        == c0[a].1.counter_type);
                    assert(forall|a: int| 0 <= a < c0.len() && a != j ==> (#[trigger] c0.update(
                        j as int,
                        (chat_id, cv),
                    )[a]) == c0[a]);
                    assert(c0.update(j as int, (chat_id, cv))[j as int].1 == cv);
                    assert(final(self).wf());
                }
            },
            None => {},
        }
    }

    /// Record a delivery on the row for one (user, kind) pair, if it
    /// exists.
    pub fn mark_reminder_sent(&mut self, chat_id: i64, counter_type: CounterType, today: &Today)
        requires
            old(self).wf(),
        ensures
            final(self).wf(),
            final(self).config_of(chat_id, counter_type) == (match old(self).config_of(
                chat_id,
                counter_type,
            ) {
                Some(c) => Some((CounterReminder {
                    last_sent_month: Some(today.month_token),
                    last_sent_date: Some(today.date_token),
                    ..c
                })),
                None => None::<CounterReminder>,
            }),
            forall|k: CounterType| #![all_triggers]
                k != counter_type ==> final(self).config_of(chat_id, k) == old(self).config_of(
                    chat_id,
                    k,
                ),
            final(self).global_of(chat_id) == old(self).global_of(chat_id),
            forall|v: i64| #![all_triggers]
                v != chat_id ==> final(self).global_of(v) == old(self).global_of(v)
                    && (forall|k: CounterType| #![all_triggers]
                    final(self).config_of(v, k) == old(self).config_of(v, k)),
            final(self).task_rows@ == old(self).task_rows@,
    {
        let ghost c0 = self.counter_rows@;
        match crow_index(&self.counter_rows, chat_id, &counter_type) {
            Some(j) => {
                let mut c = self.counter_rows[j].1.clone();
                c.mark_sent(today);
                proof {
                    assert(c == (CounterReminder {
                        last_sent_month: Some(today.month_token),
                        last_sent_date: Some(today.date_token),
                        ..c0[j as int].1
                    }));
                }
                let ghost cv = c;
                self.counter_rows.set(j, (chat_id, c));
                proof {
                    assert(self.counter_rows@ == c0.update(j as int, (chat_id, cv)));
                    assert forall|u: i64, k: CounterType| #[trigger] crow_find(
                        self.counter_rows@,
                        u,
                        k,
                    ) == (if u == chat_id && k == counter_type {
                        Some(cv)
                    } else {
                        crow_find(c0, u, k)
                    }) by {
                        lemma_crow_find_update(c0, j as int, (chat_id, cv), u, k);
                    }
                    assert(forall|a: int| 0 <= a < c0.len() ==> (#[trigger] c0.update(
                        j as int,
                        (chat_id, cv),
                    )[a]).0 == c0[a].0 && c0.update(j as int, (chat_id, cv))[a].1.counter_type
                        == c0[a].1.counter_type);
                    assert(forall|a: int| 0 <= a < c0.len() && a != j ==> (#[trigger] c0.update(
                        j as int,
                        (chat_id, cv),
                    )[a]) == c0[a]);
                    assert(c0.update(j as int, (chat_id, cv))[j as int].1 == cv);
                    assert(final(self).wf());
                }
            },
            None => {},
        }
    }

    /// Clear the completion flag of every row whose last-notified month
    /// is not `current_month`.
    pub fn reset_monthly_statuses(&mut self, current_month: &str)
        requires
            old(self).wf(),
        ensures
            final(self).wf(),
            forall|u: i64| #![all_triggers] final(self).global_of(u) == old(self).global_of(u),
            forall|u: i64, k: CounterType| #![all_triggers]
                final(self).config_of(u, k) == (match old(self).config_of(u, k) {
                    Some(c) => Some(reset_tr(c, current_month@)),
                    None => None::<CounterReminder>,
                }),
            final(self).task_rows@ == old(self).task_rows@,
            final(self).user_rows@ == old(self).user_rows@,
    {
        let ghost c0 = self.counter_rows@;
        let n = self.counter_rows.len();
        let mut i: usize = 0;
        while i < n
            invariant
                0 <= i <= n,
                n == c0.len(),
                self.counter_rows@.len() == c0.len(),
                c0 == old(self).counter_rows@,
                self.task_rows@ == old(self).task_rows@,
                self.user_rows@ == old(self).user_rows@,
                forall|a: int| 0 <= a < i ==> (#[trigger] self.counter_rows@[a]).0 == c0[a].0
                    && self.counter_rows@[a].1 == reset_tr(c0[a].1, current_month@),
                forall|a: int| i <= a < n ==> (#[trigger] self.counter_rows@[a]) == c0[a],
            decreases n - i,
        {
            let key = self.counter_rows[i].0;
            let mut c = self.counter_rows[i].1.clone();
            c.reset_for_new_month(current_month);
            self.counter_rows.set(i, (key, c));
            i = i + 1;
        }
        proof {
            let c1 = self.counter_rows@;
            assert(forall|a: int| 0 <= a < c0.len() ==> (#[trigger] c1[a]).0 == c0[a].0);
            assert(forall|a: int| 0 <= a < c0.len() ==> (#[trigger] c1[a]).1 == reset_tr(
                c0[a].1,
                current_month@,
            ));
            assert forall|u: i64, k: CounterType| #![all_triggers] self.config_of(u, k) == (
            match old(self).config_of(u, k) {
                Some(c) => Some(reset_tr(c, current_month@)),
                None => None::<CounterReminder>,
            }) by {
                lemma_crow_find_reset(c0, c1, u, k, current_month@);
            }
            assert(forall|a: int| 0 <= a < c0.len() ==> (#[trigger] c1[a]).1.counter_type == c0[
                a
            ].1.counter_type);
            assert(forall|a: int| 0 <= a < c0.len() ==> (#[trigger] c1[a]).1.wf());
        }
    }
}

} // verus!
