use todo_reminders::reminder::{CounterReminder, CounterType, Today, UserReminders};
use todo_reminders::storage::document::DocumentStore;
use todo_reminders::storage::equiv::{run_script, StoreOp, StoreOutput};
use todo_reminders::storage::relational::RelationalStore;
use todo_reminders::storage::StorageError;
use todo_reminders::todo::TodoItem;

const USER: i64 = 42;

#[test]
fn add_then_list_round_trip() {
    let mut store = DocumentStore::new();
    store.add_task(USER, "  Купить молоко  ");
    store.add_task(USER, "x");
    let tasks = store.get_tasks(USER);
    assert_eq!(tasks.len(), 2);
    assert_eq!(tasks[0].text, "Купить молоко");
    assert_eq!(tasks[1].text, "x");
    assert!(!tasks[1].completed);
}

#[test]
fn remove_single_task_leaves_empty_list() {
    let mut store = DocumentStore::new();
    store.add_task(USER, "x");
    let removed = store.remove_task(USER, 0).unwrap();
    assert_eq!(removed, "x");
    assert!(store.get_tasks(USER).is_empty());
}

#[test]
fn complete_flips_flag_and_returns_text() {
    let mut store = DocumentStore::new();
    store.add_task(USER, "first");
    store.add_task(USER, "second");
    let text = store.mark_task_completed(USER, 1).unwrap();
    assert_eq!(text, "second");
    let tasks = store.get_tasks(USER);
    assert!(!tasks[0].completed);
    assert!(tasks[1].completed);
}

#[test]
fn complete_is_idempotent() {
    let mut store = DocumentStore::new();
    store.add_task(USER, "done twice");
    let first = store.mark_task_completed(USER, 0).unwrap();
    let before = store.get_tasks(USER);
    let second = store.mark_task_completed(USER, 0).unwrap();
    let after = store.get_tasks(USER);
    assert_eq!(first, second);
    assert_eq!(before.len(), after.len());
    assert!(after[0].completed);
    assert_eq!(before[0].text, after[0].text);
    assert_eq!(before[0].id, after[0].id);
}

#[test]
fn index_out_of_range_is_not_found_and_harmless() {
    let mut store = DocumentStore::new();
    store.add_task(USER, "a");
    store.add_task(USER, "b");
    store.add_task(USER, "c");
    assert_eq!(store.mark_task_completed(USER, 5), Err(StorageError::NotFound));
    assert_eq!(store.remove_task(USER, 3), Err(StorageError::NotFound));
    assert_eq!(store.mark_task_completed(99, 0), Err(StorageError::NotFound));
    let tasks = store.get_tasks(USER);
    assert_eq!(tasks.len(), 3);
    assert_eq!(tasks[0].text, "a");
    assert!(!tasks[0].completed && !tasks[1].completed && !tasks[2].completed);
}

#[test]
fn clear_twice_equals_once() {
    let mut store = DocumentStore::new();
    store.add_task(USER, "a");
    store.add_task(7, "other user");
    store.clear_tasks(USER);
    let once = store.get_tasks(USER);
    store.clear_tasks(USER);
    let twice = store.get_tasks(USER);
    assert!(once.is_empty() && twice.is_empty());
    assert_eq!(store.get_tasks(7).len(), 1);
}

#[test]
fn reminder_configuration_round_trip() {
    let mut store = DocumentStore::new();
    store.add_counter_reminder(USER, CounterReminder::new(CounterType::Water, 16, 25));
    store.add_counter_reminder(USER, CounterReminder::new(CounterType::Electricity, 1, 10));
    let rems = store.get_user_reminders(USER);
    assert!(rems.global_enabled);
    let water = rems.get_reminder(&CounterType::Water).unwrap();
    assert_eq!((water.start_day, water.end_day), (16, 25));

    assert!(!store.toggle_global_reminders(USER));
    assert!(store.toggle_global_reminders(USER));

    store.mark_counter_completed(USER, CounterType::Water);
    let rems = store.get_user_reminders(USER);
    assert!(rems.get_reminder(&CounterType::Water).unwrap().completed_this_month);
    assert!(!rems.get_reminder(&CounterType::Electricity).unwrap().completed_this_month);
}

#[test]
fn monthly_reset_pass() {
    let mut store = DocumentStore::new();
    let mut config = CounterReminder::new(CounterType::Water, 16, 25);
    config.last_sent_month = Some("2024-01".to_string());
    config.completed_this_month = true;
    store.add_counter_reminder(USER, config);

    store.reset_monthly_statuses("2024-02");
    let rems = store.get_user_reminders(USER);
    assert!(!rems.get_reminder(&CounterType::Water).unwrap().completed_this_month);

    let mut config = CounterReminder::new(CounterType::Water, 16, 25);
    config.last_sent_month = Some("2024-01".to_string());
    config.completed_this_month = true;
    store.add_counter_reminder(USER, config);
    store.reset_monthly_statuses("2024-01");
    let rems = store.get_user_reminders(USER);
    assert!(rems.get_reminder(&CounterType::Water).unwrap().completed_this_month);

    // A completed but never-notified configuration reopens too.
    let mut config = CounterReminder::new(CounterType::Water, 16, 25);
    config.completed_this_month = true;
    store.add_counter_reminder(USER, config);
    store.reset_monthly_statuses("2024-01");
    let rems = store.get_user_reminders(USER);
    assert!(!rems.get_reminder(&CounterType::Water).unwrap().completed_this_month);
}

#[test]
fn save_replaces_the_whole_set() {
    let mut store = DocumentStore::new();
    store.add_counter_reminder(USER, CounterReminder::new(CounterType::Water, 16, 25));
    let mut set = UserReminders::new();
    set.add_reminder(CounterReminder::new(CounterType::Electricity, 1, 10));
    store.save_user_reminders(USER, set);
    let rems = store.get_user_reminders(USER);
    assert!(rems.get_reminder(&CounterType::Water).is_none());
    assert!(rems.get_reminder(&CounterType::Electricity).is_some());

    let mut store = RelationalStore::new();
    store.add_counter_reminder(USER, CounterReminder::new(CounterType::Water, 16, 25));
    let mut set = UserReminders::new();
    set.add_reminder(CounterReminder::new(CounterType::Electricity, 1, 10));
    store.save_user_reminders(USER, set);
    let rems = store.get_user_reminders(USER);
    assert!(rems.get_reminder(&CounterType::Water).is_none());
    assert!(rems.get_reminder(&CounterType::Electricity).is_some());
}

#[test]
fn mark_reminder_sent_sets_markers() {
    let mut store = DocumentStore::new();
    store.add_counter_reminder(USER, CounterReminder::new(CounterType::Water, 16, 25));
    let today = Today {
        day: 20,
        month_token: "2024-05".to_string(),
        date_token: "2024-05-20".to_string(),
    };
    store.mark_reminder_sent(USER, CounterType::Water, &today);
    let rems = store.get_user_reminders(USER);
    let water = rems.get_reminder(&CounterType::Water).unwrap();
    assert_eq!(water.last_sent_month.as_deref(), Some("2024-05"));
    assert_eq!(water.last_sent_date.as_deref(), Some("2024-05-20"));
}

#[test]
fn generated_ids_are_uuid_shaped() {
    let item = TodoItem::new("x".to_string());
    assert_eq!(item.id.chars().count(), 36);
    let other = TodoItem::new("x".to_string());
    assert_ne!(item.id, other.id);
}

fn outputs_equal(a: &StoreOutput, b: &StoreOutput) -> bool {
    match (a, b) {
        (StoreOutput::Done, StoreOutput::Done) => true,
        (StoreOutput::Tasks(x), StoreOutput::Tasks(y)) => {
            x.len() == y.len()
                && x.iter().zip(y.iter()).all(|(p, q)| {
                    p.id == q.id && p.text == q.text && p.completed == q.completed
                })
        }
        (StoreOutput::Text(x), StoreOutput::Text(y)) => x == y,
        (StoreOutput::Flag(x), StoreOutput::Flag(y)) => x == y,
        (StoreOutput::Reminders(x), StoreOutput::Reminders(y)) => {
            x.global_enabled == y.global_enabled
                && [CounterType::Water, CounterType::Electricity].iter().all(|k| {
                    match (x.get_reminder(k), y.get_reminder(k)) {
                        (None, None) => true,
                        (Some(p), Some(q)) => {
                            p.start_day == q.start_day
                                && p.end_day == q.end_day
                                && p.enabled == q.enabled
                                && p.completed_this_month == q.completed_this_month
                                && p.last_sent_month == q.last_sent_month
                                && p.last_sent_date == q.last_sent_date
                        }
                        _ => false,
                    }
                })
        }
        _ => false,
    }
}

#[test]
fn backends_answer_scripts_identically() {
    let mut doc = DocumentStore::new();
    let mut rel = RelationalStore::new();
    let ops = vec![
        StoreOp::AddTask { chat_id: USER, item: TodoItem::new("Купить хлеб".to_string()) },
        StoreOp::AddTask { chat_id: USER, item: TodoItem::new("Позвонить маме".to_string()) },
        StoreOp::AddTask { chat_id: 7, item: TodoItem::new("другое".to_string()) },
        StoreOp::GetTasks { chat_id: USER },
        StoreOp::CompleteTask { chat_id: USER, index: 0 },
        StoreOp::CompleteTask { chat_id: USER, index: 9 },
        StoreOp::RemoveTask { chat_id: USER, index: 1 },
        StoreOp::GetTasks { chat_id: USER },
        StoreOp::AddCounterReminder {
            chat_id: USER,
            config: CounterReminder::new(CounterType::Water, 16, 25),
        },
        StoreOp::ToggleGlobal { chat_id: USER },
        StoreOp::MarkCounterCompleted { chat_id: USER, counter_type: CounterType::Water },
        StoreOp::GetReminders { chat_id: USER },
        StoreOp::SaveReminders {
            chat_id: USER,
            reminders: {
                // A set holding only the electricity window: saving it
                // must drop the stored water configuration on both sides.
                let mut set = UserReminders::new();
                set.add_reminder(CounterReminder::new(CounterType::Electricity, 1, 10));
                set
            },
        },
        StoreOp::GetReminders { chat_id: USER },
        StoreOp::ResetMonthly { month: "2024-02".to_string() },
        StoreOp::GetReminders { chat_id: USER },
        StoreOp::ClearTasks { chat_id: USER },
        StoreOp::GetTasks { chat_id: USER },
        StoreOp::GetTasks { chat_id: 7 },
    ];
    let (out_doc, out_rel) = run_script(&mut doc, &mut rel, &ops);
    assert_eq!(out_doc.len(), ops.len());
    assert_eq!(out_rel.len(), ops.len());
    for (a, b) in out_doc.iter().zip(out_rel.iter()) {
        assert!(outputs_equal(a, b));
    }
}
