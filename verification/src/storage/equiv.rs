//! Backend equivalence: the two storage models, started from states that
//! present the same data, return the same observable result for every
//! operation of the store interface and still present the same data
//! afterwards — so any scripted sequence of operations is answered
//! identically by both.

use vstd::prelude::*;
use crate::todo::TodoItem;
use crate::reminder::{CounterType, CounterReminder, UserReminders};
use crate::storage::StorageError;
use crate::storage::document::DocumentStore;
use crate::storage::relational::RelationalStore;

verus! {

/// One operation of the storage interface, with any generated values
/// (the fresh task record) made explicit inputs.
pub enum StoreOp {
    AddTask { chat_id: i64, item: TodoItem },
    GetTasks { chat_id: i64 },
    CompleteTask { chat_id: i64, index: usize },
    RemoveTask { chat_id: i64, index: usize },
    ClearTasks { chat_id: i64 },
    GetReminders { chat_id: i64 },
    AddCounterReminder { chat_id: i64, config: CounterReminder },
    SaveReminders { chat_id: i64, reminders: UserReminders },
    ToggleGlobal { chat_id: i64 },
    MarkCounterCompleted { chat_id: i64, counter_type: CounterType },
    ResetMonthly { month: String },
}

impl StoreOp {
    /// Validity of an operation's payload.
    pub open spec fn wf(self) -> bool {
        match self {
            StoreOp::AddCounterReminder { config, .. } => config.wf(),
            StoreOp::SaveReminders { reminders, .. } => reminders.wf(),
            _ => true,
        }
    }
}

/// What one operation reports back.
pub enum StoreOutput {
    Done,
    Tasks(Vec<TodoItem>),
    Text(Result<String, StorageError>),
    Flag(bool),
    Reminders(UserReminders),
}

/// The two storage models present the same data.
pub open spec fn same_state(d: DocumentStore, r: RelationalStore) -> bool {
    &&& forall|u: i64| #![all_triggers] d.tasks_of(u) == r.tasks_of(u)
    &&& forall|u: i64| #![all_triggers] d.global_of(u) == r.global_of(u)
    &&& forall|u: i64, k: CounterType| #![all_triggers] d.config_of(u, k) == r.config_of(u, k)
}

/// Two outputs carry the same observable answer.
pub open spec fn outputs_agree(a: StoreOutput, b: StoreOutput) -> bool {
    match (a, b) {
        (StoreOutput::Done, StoreOutput::Done) => true,
        (StoreOutput::Tasks(x), StoreOutput::Tasks(y)) => x@ == y@,
        (StoreOutput::Text(x), StoreOutput::Text(y)) => x == y,
        (StoreOutput::Flag(x), StoreOutput::Flag(y)) => x == y,
        (StoreOutput::Reminders(x), StoreOutput::Reminders(y)) => {
            &&& x.global_enabled == y.global_enabled
            &&& forall|k: CounterType| #![all_triggers] x.lookup(k) == y.lookup(k)
        },
        _ => false,
    }
}

/// The backends agree on one step: applied to stores presenting the same
/// data, an operation returns the same observable answer from both and
/// leaves them presenting the same data.
pub fn apply_both(
    doc: &mut DocumentStore,
    rel: &mut RelationalStore,
    op: &StoreOp,
) -> (out: (StoreOutput, StoreOutput))
    requires
        old(doc).wf(),
        old(rel).wf(),
        same_state(*old(doc), *old(rel)),
        op.wf(),
    ensures
        final(doc).wf(),
        final(rel).wf(),
        same_state(*final(doc), *final(rel)),
        outputs_agree(out.0, out.1),
{
    match op {
        StoreOp::AddTask { chat_id, item } => {
            doc.insert_task(*chat_id, item.clone());
            rel.insert_task(*chat_id, item.clone());
            proof {
                assert forall|u: i64| #[trigger] doc.tasks_of(u) == rel.tasks_of(u) by {
                    if u == *chat_id {
                    } else {
                        assert(doc.tasks_of(u) == old(doc).tasks_of(u));
                        assert(rel.tasks_of(u) == old(rel).tasks_of(u));
                    }
                }
                assert forall|u: i64| #[trigger] doc.global_of(u) == rel.global_of(u) by {
                    assert(doc.global_of(u) == old(doc).global_of(u));
                    assert(rel.global_of(u) == old(rel).global_of(u));
                }
                assert forall|u: i64, k: CounterType| #[trigger] doc.config_of(u, k)
                    == rel.config_of(u, k) by {
                    assert(doc.config_of(u, k) == old(doc).config_of(u, k));
                    assert(rel.config_of(u, k) == old(rel).config_of(u, k));
                }
                assert(same_state(*doc, *rel));
            }
            (StoreOutput::Done, StoreOutput::Done)
        },
        StoreOp::GetTasks { chat_id } => {
            let a = doc.get_tasks(*chat_id);
            let b = rel.get_tasks(*chat_id);
            proof {
                assert(same_state(*doc, *rel));
            }
            (StoreOutput::Tasks(a), StoreOutput::Tasks(b))
        },
        StoreOp::CompleteTask { chat_id, index } => {
            let a = doc.mark_task_completed(*chat_id, *index);
            let b = rel.mark_task_completed(*chat_id, *index);
            proof {
                assert forall|u: i64| #[trigger] doc.tasks_of(u) == rel.tasks_of(u) by {
                    if u == *chat_id {
                    } else {
                        assert(doc.tasks_of(u) == old(doc).tasks_of(u));
                        assert(rel.tasks_of(u) == old(rel).tasks_of(u));
                    }
                }
                assert forall|u: i64| #[trigger] doc.global_of(u) == rel.global_of(u) by {
                    assert(doc.global_of(u) == old(doc).global_of(u));
                    assert(rel.global_of(u) == old(rel).global_of(u));
                }
                assert forall|u: i64, k: CounterType| #[trigger] doc.config_of(u, k)
                    == rel.config_of(u, k) by {
                    assert(doc.config_of(u, k) == old(doc).config_of(u, k));
                    assert(rel.config_of(u, k) == old(rel).config_of(u, k));
                }
                assert(same_state(*doc, *rel));
            }
            (StoreOutput::Text(a), StoreOutput::Text(b))
        },
        StoreOp::RemoveTask { chat_id, index } => {
            let a = doc.remove_task(*chat_id, *index);
            let b = rel.remove_task(*chat_id, *index);
            proof {
                assert forall|u: i64| #[trigger] doc.tasks_of(u) == rel.tasks_of(u) by {
                    if u == *chat_id {
                    } else {
                        assert(doc.tasks_of(u) == old(doc).tasks_of(u));
                        assert(rel.tasks_of(u) == old(rel).tasks_of(u));
                    }
                }
                assert forall|u: i64| #[trigger] doc.global_of(u) == rel.global_of(u) by {
                    assert(doc.global_of(u) == old(doc).global_of(u));
                    assert(rel.global_of(u) == old(rel).global_of(u));
                }
                assert forall|u: i64, k: CounterType| #[trigger] doc.config_of(u, k)
                    == rel.config_of(u, k) by {
                    assert(doc.config_of(u, k) == old(doc).config_of(u, k));
                    assert(rel.config_of(u, k) == old(rel).config_of(u, k));
                }
                assert(same_state(*doc, *rel));
            }
            (StoreOutput::Text(a), StoreOutput::Text(b))
        },
        StoreOp::ClearTasks { chat_id } => {
            doc.clear_tasks(*chat_id);
            rel.clear_tasks(*chat_id);
            proof {
                assert forall|u: i64| #[trigger] doc.tasks_of(u) == rel.tasks_of(u) by {
                    if u == *chat_id {
                        assert(doc.tasks_of(u) == Seq::<TodoItem>::empty());
                        assert(rel.tasks_of(u) == Seq::<TodoItem>::empty());
                    } else {
                        assert(doc.tasks_of(u) == old(doc).tasks_of(u));
                        assert(rel.tasks_of(u) == old(rel).tasks_of(u));
                    }
                }
                assert forall|u: i64| #[trigger] doc.global_of(u) == rel.global_of(u) by {
                    assert(doc.global_of(u) == old(doc).global_of(u));
                    assert(rel.global_of(u) == old(rel).global_of(u));
                }
                assert forall|u: i64, k: CounterType| #[trigger] doc.config_of(u, k)
                    == rel.config_of(u, k) by {
                    assert(doc.config_of(u, k) == old(doc).config_of(u, k));
                    assert(rel.config_of(u, k) == old(rel).config_of(u, k));
                }
                assert(same_state(*doc, *rel));
            }
            (StoreOutput::Done, StoreOutput::Done)
        },
        StoreOp::GetReminders { chat_id } => {
            let a = doc.get_user_reminders(*chat_id);
            let b = rel.get_user_reminders(*chat_id);
            proof {
                assert(same_state(*doc, *rel));
            }
            (StoreOutput::Reminders(a), StoreOutput::Reminders(b))
        },
        StoreOp::AddCounterReminder { chat_id, config } => {
            doc.add_counter_reminder(*chat_id, config.clone());
            rel.add_counter_reminder(*chat_id, config.clone());
            proof {
                assert forall|u: i64| #[trigger] doc.tasks_of(u) == rel.tasks_of(u) by {
                    assert(doc.tasks_of(u) == old(doc).tasks_of(u));
                    assert(rel.tasks_of(u) == old(rel).tasks_of(u));
                }
                assert forall|u: i64| #[trigger] doc.global_of(u) == rel.global_of(u) by {
                    if u == *chat_id {
                    } else {
                        assert(doc.global_of(u) == old(doc).global_of(u));
                        assert(rel.global_of(u) == old(rel).global_of(u));
                    }
                }
                assert forall|u: i64, k: CounterType| #[trigger] doc.config_of(u, k)
                    == rel.config_of(u, k) by {
                    if u == *chat_id {
                    } else {
                        assert(doc.global_of(u) == old(doc).global_of(u));
                        assert(rel.global_of(u) == old(rel).global_of(u));
                        assert(doc.config_of(u, k) == old(doc).config_of(u, k));
                        assert(rel.config_of(u, k) == old(rel).config_of(u, k));
                    }
                }
                assert(same_state(*doc, *rel));
            }
            (StoreOutput::Done, StoreOutput::Done)
        },
        StoreOp::SaveReminders { chat_id, reminders } => {
            let for_doc = reminders.clone();
            let for_rel = reminders.clone();
            proof {
                assert(for_doc.wf());
                assert(for_rel.wf());
            }
            doc.save_user_reminders(*chat_id, for_doc);
            rel.save_user_reminders(*chat_id, for_rel);
            proof {
                assert forall|u: i64| #[trigger] doc.tasks_of(u) == rel.tasks_of(u) by {
                    assert(doc.tasks_of(u) == old(doc).tasks_of(u));
                    assert(rel.tasks_of(u) == old(rel).tasks_of(u));
                }
                assert forall|u: i64| #[trigger] doc.global_of(u) == rel.global_of(u) by {
                    if u == *chat_id {
                    } else {
                        assert(doc.global_of(u) == old(doc).global_of(u));
                        assert(rel.global_of(u) == old(rel).global_of(u));
                    }
                }
                assert forall|u: i64, k: CounterType| #[trigger] doc.config_of(u, k)
                    == rel.config_of(u, k) by {
                    if u == *chat_id {
                        assert(doc.config_of(u, k) == for_doc.lookup(k));
                        assert(rel.config_of(u, k) == for_rel.lookup(k));
                        assert(for_doc.reminders@ == for_rel.reminders@);
                    } else {
                        assert(doc.global_of(u) == old(doc).global_of(u));
                        assert(rel.global_of(u) == old(rel).global_of(u));
                        assert(doc.config_of(u, k) == old(doc).config_of(u, k));
                        assert(rel.config_of(u, k) == old(rel).config_of(u, k));
                    }
                }
                assert(same_state(*doc, *rel));
            }
            (StoreOutput::Done, StoreOutput::Done)
        },
        StoreOp::ToggleGlobal { chat_id } => {
            let a = doc.toggle_global_reminders(*chat_id);
            let b = rel.toggle_global_reminders(*chat_id);
            proof {
                assert forall|u: i64| #[trigger] doc.tasks_of(u) == rel.tasks_of(u) by {
                    assert(doc.tasks_of(u) == old(doc).tasks_of(u));
                    assert(rel.tasks_of(u) == old(rel).tasks_of(u));
                }
                assert forall|u: i64| #[trigger] doc.global_of(u) == rel.global_of(u) by {
                    if u == *chat_id {
                    } else {
                        assert(doc.global_of(u) == old(doc).global_of(u));
                        assert(rel.global_of(u) == old(rel).global_of(u));
                    }
                }
                assert forall|u: i64, k: CounterType| #[trigger] doc.config_of(u, k)
                    == rel.config_of(u, k) by {
                    if u == *chat_id {
                    } else {
                        assert(doc.global_of(u) == old(doc).global_of(u));
                        assert(rel.global_of(u) == old(rel).global_of(u));
                        assert(doc.config_of(u, k) == old(doc).config_of(u, k));
                        assert(rel.config_of(u, k) == old(rel).config_of(u, k));
                    }
                }
                assert(same_state(*doc, *rel));
            }
            (StoreOutput::Flag(a), StoreOutput::Flag(b))
        },
        StoreOp::MarkCounterCompleted { chat_id, counter_type } => {
            doc.mark_counter_completed(*chat_id, *counter_type);
            rel.mark_counter_completed(*chat_id, *counter_type);
            proof {
                assert forall|u: i64| #[trigger] doc.tasks_of(u) == rel.tasks_of(u) by {
                    assert(doc.tasks_of(u) == old(doc).tasks_of(u));
                    assert(rel.tasks_of(u) == old(rel).tasks_of(u));
                }
                assert forall|u: i64| #[trigger] doc.global_of(u) == rel.global_of(u) by {
                    if u == *chat_id {
                    } else {
                        assert(doc.global_of(u) == old(doc).global_of(u));
                        assert(rel.global_of(u) == old(rel).global_of(u));
                    }
                }
                assert forall|u: i64, k: CounterType| #[trigger] doc.config_of(u, k)
                    == rel.config_of(u, k) by {
                    if u == *chat_id {
                    } else {
                        assert(doc.global_of(u) == old(doc).global_of(u));
                        assert(rel.global_of(u) == old(rel).global_of(u));
                        assert(doc.config_of(u, k) == old(doc).config_of(u, k));
                        assert(rel.config_of(u, k) == old(rel).config_of(u, k));
                    }
                }
                assert(same_state(*doc, *rel));
            }
            (StoreOutput::Done, StoreOutput::Done)
        },
        StoreOp::ResetMonthly { month } => {
            doc.reset_monthly_statuses(month.as_str());
            rel.reset_monthly_statuses(month.as_str());
            proof {
                assert forall|u: i64| #[trigger] doc.tasks_of(u) == rel.tasks_of(u) by {
                    assert(doc.tasks_of(u) == old(doc).tasks_of(u));
                    assert(rel.tasks_of(u) == old(rel).tasks_of(u));
                }
                assert forall|u: i64| #[trigger] doc.global_of(u) == rel.global_of(u) by {
                    assert(doc.global_of(u) == old(doc).global_of(u));
                    assert(rel.global_of(u) == old(rel).global_of(u));
                }
                assert forall|u: i64, k: CounterType| #[trigger] doc.config_of(u, k)
                    == rel.config_of(u, k) by {
                    assert(old(doc).config_of(u, k) == old(rel).config_of(u, k));
                }
                assert(same_state(*doc, *rel));
            }
            (StoreOutput::Done, StoreOutput::Done)
        },
    }
}

/// The backends agree on every script: an identical sequence of
/// operations run against both stores yields pairwise-agreeing outputs
/// and keeps the stores presenting the same data.
pub fn run_script(
    doc: &mut DocumentStore,
    rel: &mut RelationalStore,
    ops: &Vec<StoreOp>,
) -> (outs: (Vec<StoreOutput>, Vec<StoreOutput>))
    requires
        old(doc).wf(),
        old(rel).wf(),
        same_state(*old(doc), *old(rel)),
        forall|i: int| 0 <= i < ops@.len() ==> (#[trigger] ops@[i]).wf(),
    ensures
        final(doc).wf(),
        final(rel).wf(),
        same_state(*final(doc), *final(rel)),
        outs.0@.len() == ops@.len(),
        outs.1@.len() == ops@.len(),
        forall|i: int| 0 <= i < ops@.len() ==> outputs_agree(#[trigger] outs.0@[i], outs.1@[i]),
{
    let n = ops.len();
    let mut out_doc: Vec<StoreOutput> = Vec::new();
    let mut out_rel: Vec<StoreOutput> = Vec::new();
    let mut i: usize = 0;
    while i < n
        invariant
            0 <= i <= n,
            n == ops@.len(),
            doc.wf(),
            rel.wf(),
            same_state(*doc, *rel),
            forall|j: int| 0 <= j < ops@.len() ==> (#[trigger] ops@[j]).wf(),
            out_doc@.len() == i,
            out_rel@.len() == i,
            forall|j: int| 0 <= j < i ==> outputs_agree(#[trigger] out_doc@[j], out_rel@[j]),
        decreases n - i,
    {
        let (a, b) = apply_both(doc, rel, &ops[i]);
        out_doc.push(a);
        out_rel.push(b);
        i = i + 1;
    }
    (out_doc, out_rel)
}

} // verus!
