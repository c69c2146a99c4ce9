//! The per-user conversational state machine: what the next free-text
//! message means, and the single-slot state store behind it.

use vstd::prelude::*;
use crate::reminder::CounterType;
use crate::validation::{TaskValidator, ValidationResult, task_text_ok, task_text_error,
    filter_allowed, cap500};
use crate::parser::{PeriodError, tasks_of_text, spec_parse_period, parse_task_list, parse_period};
use crate::text::{trimmed, trim_str, numeral_body, all_digits, digits_value, parse_usize};
use crate::storage::{assoc_find, assoc_index, distinct_keys, lemma_assoc_find_push,
    lemma_assoc_find_none_when_absent, lemma_assoc_find_update};

verus! {

/// What the next free-text message from a user will mean.
#[derive(Clone, Copy, Debug, PartialEq, Eq, Structural)]
pub enum UserState {
    Default,
    WaitingForTask,
    WaitingForTaskList,
    WaitingForTaskNumber,
    WaitingForRemovalNumber,
    WaitingForWaterPeriod,
    WaitingForElectricityPeriod,
}

impl Default for UserState {
    fn default() -> (r: Self)
        ensures
            r == UserState::Default,
    {
        UserState::Default
    }
}

/// One conversational state per user; absent means `Default`.
pub struct UserStates {
    pub entries: Vec<(i64, UserState)>,
}

impl UserStates {
    /// Keys occur once.
    pub open spec fn wf(self) -> bool {
        distinct_keys(self.entries@)
    }

    /// The state stored for a user, `Default` when absent.
    pub open spec fn state_of(self, user: i64) -> UserState {
        match assoc_find(self.entries@, user) {
            Some(s) => s,
            None => UserState::Default,
        }
    }

    /// An empty store: every user is in `Default`.
    pub fn new() -> (r: Self)
        ensures
            r.wf(),
            forall|u: i64| r.state_of(u) == UserState::Default,
    {
        UserStates { entries: Vec::new() }
    }

    /// Read a user's current state.
    pub fn get(&self, chat_id: i64) -> (r: UserState)
        ensures
            r == self.state_of(chat_id),
    {
        match assoc_index(&self.entries, chat_id) {
            Some(i) => self.entries[i].1,
            None => UserState::Default,
        }
    }

    /// Set a user's state, leaving every other user's untouched.
    pub fn set(&mut self, chat_id: i64, state: UserState)
        requires
            old(self).wf(),
        ensures
            final(self).wf(),
            final(self).state_of(chat_id) == state,
            forall|v: i64| #![all_triggers]
                v != chat_id ==> final(self).state_of(v) == old(self).state_of(v),
    {
        let ghost e0 = self.entries@;
        match assoc_index(&self.entries, chat_id) {
            Some(i) => {
                self.entries.set(i, (chat_id, state));
                proof {
                    assert(self.entries@ == e0.update(i as int, (chat_id, state)));
                    assert forall|v: i64| #[trigger] assoc_find(self.entries@, v) == (if v
                        == chat_id {
                        Some(state)
                    } else {
                        assoc_find(e0, v)
                    }) by {
                        lemma_assoc_find_update(e0, i as int, (chat_id, state), v);
                    }
                    assert(forall|a: int| 0 <= a < e0.len() ==> (#[trigger] e0.update(
                        i as int,
                        (chat_id, state),
                    )[a]).0 == e0[a].0);
                }
            },
            None => {
                self.entries.push((chat_id, state));
                proof {
                    assert(self.entries@ == e0.push((chat_id, state)));
                    assert forall|v: i64| #[trigger] assoc_find(self.entries@, v) == (if v
                        == chat_id {
                        Some(state)
                    } else {
                        assoc_find(e0, v)
                    }) by {
                        lemma_assoc_find_push(e0, (chat_id, state), v);
                        if v == chat_id {
                            lemma_assoc_find_none_when_absent(e0, chat_id);
                        }
                    }
                    assert(forall|a: int| 0 <= a < e0.len() ==> (#[trigger] self.entries@[a])
                        == e0[a]);
                    assert(self.entries@[e0.len() as int].0 == chat_id);
                }
            },
        }
    }
}

/// The sanitized form of a task text.
pub open spec fn sanitize_spec(t: Seq<char>) -> Seq<char> {
    trimmed(cap500(filter_allowed(t)))
}

/// The acceptable task texts of a batch, sanitized, in order.
pub open spec fn valid_sanitized(ts: Seq<Seq<char>>) -> Seq<Seq<char>>
    decreases ts.len(),
{
    if ts.len() == 0 {
        Seq::empty()
    } else {
        valid_sanitized(ts.drop_last()) + (if task_text_ok(ts.last()) {
            seq![sanitize_spec(ts.last())]
        } else {
            Seq::empty()
        })
    }
}

/// The task index a numeric input addresses: the number read from the
/// text, minus one — only for a positive number in range.
pub open spec fn parsed_index(t: Seq<char>) -> Option<int> {
    let b = numeral_body(t);
    if b.len() > 0 && all_digits(b) && digits_value(b) <= usize::MAX && digits_value(b) > 0 {
        Some(digits_value(b) - 1)
    } else {
        None
    }
}

/// The interpretation of one free-text message.
#[derive(Debug)]
pub enum TextOutcome {
    /// The message exceeds the accepted length.
    MessageTooLong(String),
    /// A task text was expected but the message is empty.
    PromptTask,
    /// The task text fails validation; the message says why.
    InvalidTask(String),
    /// Store one task with this sanitized text.
    AddTask(String),
    /// A task list was expected but the message is empty.
    PromptTaskList,
    /// No task could be recognised in the lines.
    NoTasksRecognized,
    /// Store these sanitized tasks, one per acceptable line.
    AddTasks(Vec<String>),
    /// A task number was expected but the message is not a positive
    /// number.
    BadTaskNumber,
    /// Flag the task at this position as done.
    CompleteAt(usize),
    /// Remove the task at this position.
    RemoveAt(usize),
    /// Store this window for this counter kind.
    SetPeriod(CounterType, u32, u32),
    /// The period input was rejected for this reason.
    RejectPeriod(PeriodError),
    /// No conversation is pending; the message has no meaning here.
    Unrecognized,
}

/// Decide what a free-text message means in the user's current state.
/// The message is trimmed first; an overlong message is rejected before
/// any interpretation.
pub fn route_text(validator: &TaskValidator, state: &UserState, text: &str) -> (r: TextOutcome)
    ensures
        ({
            let t = trimmed(text@);
            &&& (r is MessageTooLong <==> t.len() > 4000)
            &&& (r matches TextOutcome::MessageTooLong(m) ==> m@
                == "Сообщение слишком длинное (максимум 4000 символов)"@)
            &&& t.len() <= 4000 ==> match *state {
                UserState::WaitingForTask => {
                    &&& (r is PromptTask <==> t.len() == 0)
                    &&& (r is AddTask <==> t.len() > 0 && task_text_ok(t))
                    &&& (r matches TextOutcome::AddTask(s) ==> s@ == sanitize_spec(t))
                    &&& (r is InvalidTask <==> t.len() > 0 && !task_text_ok(t))
                    &&& (r matches TextOutcome::InvalidTask(m) ==> m@ == task_text_error(t))
                },
                UserState::WaitingForTaskList => {
                    &&& (r is PromptTaskList <==> t.len() == 0)
                    &&& (r is NoTasksRecognized <==> t.len() > 0 && tasks_of_text(t).len() == 0)
                    &&& (r is AddTasks <==> t.len() > 0 && tasks_of_text(t).len() > 0)
                    &&& (r matches TextOutcome::AddTasks(l) ==> l.deep_view() == valid_sanitized(
                        tasks_of_text(t),
                    ))
                },
                UserState::WaitingForTaskNumber => {
                    &&& (r is CompleteAt <==> parsed_index(t) is Some)
                    &&& (r matches TextOutcome::CompleteAt(i) ==> Some(i as int) == parsed_index(
                        t,
                    ))
                    &&& (r is BadTaskNumber <==> parsed_index(t) is None)
                },
                UserState::WaitingForRemovalNumber => {
                    &&& (r is RemoveAt <==> parsed_index(t) is Some)
                    &&& (r matches TextOutcome::RemoveAt(i) ==> Some(i as int) == parsed_index(t))
                    &&& (r is BadTaskNumber <==> parsed_index(t) is None)
                },
                UserState::WaitingForWaterPeriod => {
                    &&& (r matches TextOutcome::SetPeriod(kind, a, b) ==> kind
                        == CounterType::Water && spec_parse_period(t) == Ok::<
                        (u32, u32),
                        PeriodError,
                    >((a, b)))
                    &&& (r is SetPeriod <==> spec_parse_period(t) is Ok)
                    &&& (r matches TextOutcome::RejectPeriod(e) ==> spec_parse_period(t) == Err::<
                        (u32, u32),
                        PeriodError,
                    >(e))
                    &&& (r is RejectPeriod <==> spec_parse_period(t) is Err)
                },
                UserState::WaitingForElectricityPeriod => {
                    &&& (r matches TextOutcome::SetPeriod(kind, a, b) ==> kind
                        == CounterType::Electricity && spec_parse_period(t) == Ok::<
                        (u32, u32),
                        PeriodError,
                    >((a, b)))
                    &&& (r is SetPeriod <==> spec_parse_period(t) is Ok)
                    &&& (r matches TextOutcome::RejectPeriod(e) ==> spec_parse_period(t) == Err::<
                        (u32, u32),
                        PeriodError,
                    >(e))
                    &&& (r is RejectPeriod <==> spec_parse_period(t) is Err)
                },
                UserState::Default => r is Unrecognized,
            }
        }),
{
    let t = trim_str(text);
    if t.as_str().unicode_len() > 4000 {
        return TextOutcome::MessageTooLong(
            "Сообщение слишком длинное (максимум 4000 символов)".to_owned(),
        );
    }
    match state {
        UserState::WaitingForTask => {
            if t.as_str().unicode_len() == 0 {
                return TextOutcome::PromptTask;
            }
            match validator.validate_task_text(t.as_str()) {
                ValidationResult::Valid => TextOutcome::AddTask(
                    validator.sanitize_task_text(t.as_str()),
                ),
                ValidationResult::Invalid(m) => TextOutcome::InvalidTask(m),
            }
        },
        UserState::WaitingForTaskList => {
            if t.as_str().unicode_len() == 0 {
                return TextOutcome::PromptTaskList;
            }
            let tasks = parse_task_list(t.as_str());
            if tasks.len() == 0 {
                proof {
                    assert(tasks_of_text(trimmed(text@)).len() == 0);
                }
                return TextOutcome::NoTasksRecognized;
            }
            let ghost ts = tasks.deep_view();
            let mut kept: Vec<String> = Vec::new();
            let n = tasks.len();
            let mut i: usize = 0;
            while i < n
                invariant
                    0 <= i <= n,
                    n == tasks@.len(),
                    ts == tasks.deep_view(),
                    kept.deep_view() == valid_sanitized(ts.take(i as int)),
                decreases n - i,
            {
                proof {
                    assert(ts.take(i + 1).drop_last() =~= ts.take(i as int));
                    assert(ts.take(i + 1).last() == ts[i as int]);
                    assert(ts[i as int] == tasks@[i as int]@);
                }
                let ghost kept0 = kept.deep_view();
                match validator.validate_task_text(tasks[i].as_str()) {
                    ValidationResult::Valid => {
                        kept.push(validator.sanitize_task_text(tasks[i].as_str()));
                        proof {
                            assert(kept.deep_view() =~= kept0.push(sanitize_spec(ts[i as int])));
                            assert(kept.deep_view() =~= valid_sanitized(ts.take(i + 1)));
                        }
                    },
                    ValidationResult::Invalid(_) => {
                        proof {
                            assert(kept.deep_view() =~= valid_sanitized(ts.take(i + 1)));
                        }
                    },
                }
                i = i + 1;
            }
            proof {
                assert(ts.take(n as int) =~= ts);
            }
            TextOutcome::AddTasks(kept)
        },
        UserState::WaitingForTaskNumber => {
            match parse_usize(t.as_str()) {
                Some(num) => if num > 0 {
                    TextOutcome::CompleteAt(num - 1)
                } else {
                    TextOutcome::BadTaskNumber
                },
                None => TextOutcome::BadTaskNumber,
            }
        },
        UserState::WaitingForRemovalNumber => {
            match parse_usize(t.as_str()) {
                Some(num) => if num > 0 {
                    TextOutcome::RemoveAt(num - 1)
                } else {
                    TextOutcome::BadTaskNumber
                },
                None => TextOutcome::BadTaskNumber,
            }
        },
        UserState::WaitingForWaterPeriod => {
            match parse_period(t.as_str()) {
                Ok((a, b)) => TextOutcome::SetPeriod(CounterType::Water, a, b),
                Err(e) => TextOutcome::RejectPeriod(e),
            }
        },
        UserState::WaitingForElectricityPeriod => {
            match parse_period(t.as_str()) {
                Ok((a, b)) => TextOutcome::SetPeriod(CounterType::Electricity, a, b),
                Err(e) => TextOutcome::RejectPeriod(e),
            }
        },
        UserState::Default => TextOutcome::Unrecognized,
    }
}

/// What an inline-button callback asks for.
#[derive(Clone, Copy, Debug, PartialEq, Eq, Structural)]
pub enum CallbackAction {
    ShowTodoMenu,
    ShowMainMenu,
    /// Expect a single task text next.
    BeginAddTask,
    /// Expect a multi-line task list next.
    BeginAddTaskList,
    ListTasks,
    /// Expect a task number to complete next.
    BeginCompleteTask,
    /// Expect a task number to remove next.
    BeginRemoveTask,
    ClearAll,
    ShowHelp,
    ShowTodoHelp,
    ShowReminderMenu,
    ShowReminderHelp,
    ShowCountersMenu,
    /// Expect a day window for this counter next.
    BeginCounterPeriod(CounterType),
    ToggleReminders,
    /// The user confirms this counter's reading was submitted.
    AckSent(CounterType),
    /// The user declines; reminders continue.
    DeclineSent(CounterType),
    /// Unknown callback data: do nothing.
    Ignore,
}

/// The action each payload denotes, as a dispatch table over the view.
pub open spec fn spec_route_callback(d: Seq<char>) -> CallbackAction {
    if d == "todo_menu"@ {
        CallbackAction::ShowTodoMenu
    } else if d == "main_menu"@ {
        CallbackAction::ShowMainMenu
    } else if d == "add_task"@ {
        CallbackAction::BeginAddTask
    } else if d == "add_list"@ {
        CallbackAction::BeginAddTaskList
    } else if d == "list_tasks"@ {
        CallbackAction::ListTasks
    } else if d == "mark_done"@ {
        CallbackAction::BeginCompleteTask
    } else if d == "remove_task"@ {
        CallbackAction::BeginRemoveTask
    } else if d == "clear_all"@ {
        CallbackAction::ClearAll
    } else if d == "help"@ {
        CallbackAction::ShowHelp
    } else if d == "todo_help"@ {
        CallbackAction::ShowTodoHelp
    } else if d == "reminder_menu"@ {
        CallbackAction::ShowReminderMenu
    } else if d == "reminder_help"@ {
        CallbackAction::ShowReminderHelp
    } else if d == "counters_menu"@ {
        CallbackAction::ShowCountersMenu
    } else if d == "counter_water"@ {
        CallbackAction::BeginCounterPeriod(CounterType::Water)
    } else if d == "counter_electricity"@ {
        CallbackAction::BeginCounterPeriod(CounterType::Electricity)
    } else if d == "toggle_reminders"@ {
        CallbackAction::ToggleReminders
    } else if d == "sent_yes_water"@ {
        CallbackAction::AckSent(CounterType::Water)
    } else if d == "sent_yes_electricity"@ {
        CallbackAction::AckSent(CounterType::Electricity)
    } else if d == "sent_no_water"@ {
        CallbackAction::DeclineSent(CounterType::Water)
    } else if d == "sent_no_electricity"@ {
        CallbackAction::DeclineSent(CounterType::Electricity)
    } else {
        CallbackAction::Ignore
    }
}

/// Decide what a callback-button payload asks for.  Every recognised
/// payload maps to exactly one action; anything else is ignored.
pub fn route_callback(data: &str) -> (r: CallbackAction)
    ensures
        r == spec_route_callback(data@),
{
    if crate::text::str_eq(data, "todo_menu") {
        CallbackAction::ShowTodoMenu
    } else if crate::text::str_eq(data, "main_menu") {
        CallbackAction::ShowMainMenu
    } else if crate::text::str_eq(data, "add_task") {
        CallbackAction::BeginAddTask
    } else if crate::text::str_eq(data, "add_list") {
        CallbackAction::BeginAddTaskList
    } else if crate::text::str_eq(data, "list_tasks") {
        CallbackAction::ListTasks
    } else if crate::text::str_eq(data, "mark_done") {
        CallbackAction::BeginCompleteTask
    } else if crate::text::str_eq(data, "remove_task") {
        CallbackAction::BeginRemoveTask
    } else if crate::text::str_eq(data, "clear_all") {
        CallbackAction::ClearAll
    } else if crate::text::str_eq(data, "help") {
        CallbackAction::ShowHelp
    } else if crate::text::str_eq(data, "todo_help") {
        CallbackAction::ShowTodoHelp
    } else if crate::text::str_eq(data, "reminder_menu") {
        CallbackAction::ShowReminderMenu
    } else if crate::text::str_eq(data, "reminder_help") {
        CallbackAction::ShowReminderHelp
    } else if crate::text::str_eq(data, "counters_menu") {
        CallbackAction::ShowCountersMenu
    } else if crate::text::str_eq(data, "counter_water") {
        CallbackAction::BeginCounterPeriod(CounterType::Water)
    } else if crate::text::str_eq(data, "counter_electricity") {
        CallbackAction::BeginCounterPeriod(CounterType::Electricity)
    } else if crate::text::str_eq(data, "toggle_reminders") {
        CallbackAction::ToggleReminders
    } else if crate::text::str_eq(data, "sent_yes_water") {
        CallbackAction::AckSent(CounterType::Water)
    } else if crate::text::str_eq(data, "sent_yes_electricity") {
        CallbackAction::AckSent(CounterType::Electricity)
    } else if crate::text::str_eq(data, "sent_no_water") {
        CallbackAction::DeclineSent(CounterType::Water)
    } else if crate::text::str_eq(data, "sent_no_electricity") {
        CallbackAction::DeclineSent(CounterType::Electricity)
    } else {
        CallbackAction::Ignore
    }
}

} // verus!
