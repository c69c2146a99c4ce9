use todo_reminders::conversation::{route_callback, route_text, CallbackAction, TextOutcome, UserState, UserStates};
use todo_reminders::parser::{parse_period, parse_task_list, PeriodError};
use todo_reminders::reminder::CounterType;
use todo_reminders::text::{parse_u32, parse_usize, str_eq, trim_str};
use todo_reminders::validation::TaskValidator;

#[test]
fn trim_and_equality_helpers() {
    assert_eq!(trim_str("  привет \n"), "привет");
    assert_eq!(trim_str(""), "");
    assert_eq!(trim_str("   "), "");
    assert!(str_eq("water", "water"));
    assert!(!str_eq("water", "Water"));
}

#[test]
fn decimal_parsing() {
    assert_eq!(parse_usize("17"), Some(17));
    assert_eq!(parse_usize("+17"), Some(17));
    assert_eq!(parse_usize("0"), Some(0));
    assert_eq!(parse_usize(""), None);
    assert_eq!(parse_usize("+"), None);
    assert_eq!(parse_usize("17a"), None);
    assert_eq!(parse_usize("-1"), None);
    assert_eq!(parse_u32("4294967295"), Some(u32::MAX));
    assert_eq!(parse_u32("4294967296"), None);
}

#[test]
fn period_parsing() {
    assert_eq!(parse_period("16-25"), Ok((16, 25)));
    assert_eq!(parse_period(" 1 - 10 "), Ok((1, 10)));
    assert_eq!(parse_period("16"), Err(PeriodError::Format));
    assert_eq!(parse_period("1-2-3"), Err(PeriodError::Format));
    assert_eq!(parse_period("x-25"), Err(PeriodError::StartDay));
    assert_eq!(parse_period("16-y"), Err(PeriodError::EndDay));
    assert_eq!(parse_period("0-25"), Err(PeriodError::Range));
    assert_eq!(parse_period("16-32"), Err(PeriodError::Range));
    assert_eq!(parse_period("25-16"), Err(PeriodError::Range));
}

#[test]
fn task_list_parsing() {
    // Enumeration prefixes are stripped; empty lines are skipped.
    let text = "1. Первая задача\n2) Вторая задача\n\n- Третья\n* Четвёртая\nПятая";
    let tasks = parse_task_list(text);
    assert_eq!(
        tasks,
        vec![
            "Первая задача".to_string(),
            "Вторая задача".to_string(),
            "Третья".to_string(),
            "Четвёртая".to_string(),
            "Пятая".to_string(),
        ]
    );
}

#[test]
fn task_list_keeps_odd_prefixes_whole() {
    // A prefix holding more than enumeration characters stays part of
    // the task.
    let tasks = parse_task_list("?! Задача");
    assert_eq!(tasks, vec!["?! Задача".to_string()]);
    // Overlong lines are dropped.
    let long = "a".repeat(501);
    assert!(parse_task_list(&long).is_empty());
    assert!(parse_task_list("   \n \r\n").is_empty());
}

#[test]
fn state_store_defaults_and_updates() {
    let mut states = UserStates::new();
    assert!(matches!(states.get(1), UserState::Default));
    states.set(1, UserState::WaitingForTask);
    states.set(2, UserState::WaitingForTaskNumber);
    assert!(matches!(states.get(1), UserState::WaitingForTask));
    assert!(matches!(states.get(2), UserState::WaitingForTaskNumber));
    states.set(1, UserState::Default);
    assert!(matches!(states.get(1), UserState::Default));
    assert!(matches!(states.get(2), UserState::WaitingForTaskNumber));
}

#[test]
fn routing_task_text() {
    let validator = TaskValidator::new().unwrap();
    assert!(matches!(
        route_text(&validator, &UserState::WaitingForTask, "  "),
        TextOutcome::PromptTask
    ));
    match route_text(&validator, &UserState::WaitingForTask, " Купить молоко ") {
        TextOutcome::AddTask(s) => assert_eq!(s, "Купить молоко"),
        other => panic!("unexpected outcome: {:?}", other),
    }
    assert!(matches!(
        route_text(&validator, &UserState::WaitingForTask, "€€€"),
        TextOutcome::InvalidTask(_)
    ));
}

#[test]
fn routing_task_numbers() {
    let validator = TaskValidator::new().unwrap();
    assert!(matches!(
        route_text(&validator, &UserState::WaitingForTaskNumber, "3"),
        TextOutcome::CompleteAt(2)
    ));
    assert!(matches!(
        route_text(&validator, &UserState::WaitingForTaskNumber, "0"),
        TextOutcome::BadTaskNumber
    ));
    assert!(matches!(
        route_text(&validator, &UserState::WaitingForRemovalNumber, "1"),
        TextOutcome::RemoveAt(0)
    ));
    assert!(matches!(
        route_text(&validator, &UserState::WaitingForRemovalNumber, "abc"),
        TextOutcome::BadTaskNumber
    ));
}

#[test]
fn routing_periods_and_lists() {
    let validator = TaskValidator::new().unwrap();
    match route_text(&validator, &UserState::WaitingForWaterPeriod, "16-25") {
        TextOutcome::SetPeriod(kind, a, b) => {
            assert!(matches!(kind, CounterType::Water));
            assert_eq!((a, b), (16, 25));
        }
        other => panic!("unexpected outcome: {:?}", other),
    }
    assert!(matches!(
        route_text(&validator, &UserState::WaitingForElectricityPeriod, "25-16"),
        TextOutcome::RejectPeriod(PeriodError::Range)
    ));
    match route_text(&validator, &UserState::WaitingForTaskList, "1. Хлеб\n2. !!!!!!!\n3. Молоко") {
        TextOutcome::AddTasks(tasks) => {
            assert_eq!(tasks, vec!["Хлеб".to_string(), "Молоко".to_string()]);
        }
        other => panic!("unexpected outcome: {:?}", other),
    }
    assert!(matches!(
        route_text(&validator, &UserState::Default, "что-то"),
        TextOutcome::Unrecognized
    ));
    let long = "д".repeat(4001);
    assert!(matches!(
        route_text(&validator, &UserState::Default, &long),
        TextOutcome::MessageTooLong(_)
    ));
}

#[test]
fn routing_callbacks() {
    assert!(matches!(route_callback("todo_menu"), CallbackAction::ShowTodoMenu));
    assert!(matches!(route_callback("add_task"), CallbackAction::BeginAddTask));
    assert!(matches!(
        route_callback("counter_water"),
        CallbackAction::BeginCounterPeriod(CounterType::Water)
    ));
    assert!(matches!(
        route_callback("sent_yes_electricity"),
        CallbackAction::AckSent(CounterType::Electricity)
    ));
    assert!(matches!(
        route_callback("sent_no_water"),
        CallbackAction::DeclineSent(CounterType::Water)
    ));
    assert!(matches!(route_callback("nonsense"), CallbackAction::Ignore));
}
