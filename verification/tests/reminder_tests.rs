use todo_reminders::reminder::{CounterReminder, CounterType, Today, UserReminders};
use todo_reminders::scheduler::{after_dispatch, plan_due, plan_tick, reminder_phase, ClockInfo,
    DispatchFollowUp, DispatchOutcome, DueReminder, ReminderPhase};

fn day(d: u32) -> Today {
    Today {
        day: d,
        month_token: "2024-05".to_string(),
        date_token: format!("2024-05-{:02}", d),
    }
}

#[test]
fn reminder_days_for_example_window() {
    // Window 16..=25: first day, midpoint 20, and the last three days.
    let config = CounterReminder::new(CounterType::Water, 16, 25);
    let mut fired: Vec<u32> = Vec::new();
    for d in 1..=31 {
        if config.should_remind_today(&day(d)) {
            fired.push(d);
        }
    }
    assert_eq!(fired, vec![16, 20, 23, 24, 25]);
}

#[test]
fn reminder_days_never_empty() {
    // The final day of the window always fires.
    for start in 1..=31u32 {
        for end in start..=31u32 {
            let config = CounterReminder::new(CounterType::Water, start, end);
            assert!(config.should_remind_today(&day(end)));
        }
    }
}

#[test]
fn no_reminder_outside_window() {
    let config = CounterReminder::new(CounterType::Water, 16, 25);
    for d in (1..16).chain(26..=31) {
        assert!(!config.should_remind_today(&day(d)));
    }
}

#[test]
fn no_reminder_once_completed() {
    let mut config = CounterReminder::new(CounterType::Electricity, 16, 25);
    assert!(config.should_remind_today(&day(16)));
    config.mark_completed();
    for d in 1..=31 {
        assert!(!config.should_remind_today(&day(d)));
    }
}

#[test]
fn no_reminder_when_disabled() {
    let mut config = CounterReminder::new(CounterType::Water, 1, 10);
    config.enabled = false;
    for d in 1..=31 {
        assert!(!config.should_remind_today(&day(d)));
    }
}

#[test]
fn monthly_reset_rule() {
    // Completed in January: the February pass reopens the window.
    let mut config = CounterReminder::new(CounterType::Water, 16, 25);
    config.last_sent_month = Some("2024-01".to_string());
    config.completed_this_month = true;
    config.reset_for_new_month("2024-02");
    assert!(!config.completed_this_month);

    // Same month: nothing changes.
    let mut config = CounterReminder::new(CounterType::Water, 16, 25);
    config.last_sent_month = Some("2024-01".to_string());
    config.completed_this_month = true;
    config.reset_for_new_month("2024-01");
    assert!(config.completed_this_month);

    // Never notified: the window reopens as well — an absent month
    // differs from the current token.
    let mut config = CounterReminder::new(CounterType::Water, 16, 25);
    config.completed_this_month = true;
    config.reset_for_new_month("2024-02");
    assert!(!config.completed_this_month);
}

#[test]
fn mark_sent_records_both_tokens() {
    let mut config = CounterReminder::new(CounterType::Water, 16, 25);
    config.mark_sent(&day(20));
    assert_eq!(config.last_sent_month.as_deref(), Some("2024-05"));
    assert_eq!(config.last_sent_date.as_deref(), Some("2024-05-20"));
}

#[test]
fn counter_type_round_trip() {
    assert_eq!(CounterType::Water.as_str(), "water");
    assert_eq!(CounterType::Electricity.as_str(), "electricity");
    assert!(matches!(CounterType::from_str("water"), Some(CounterType::Water)));
    assert!(matches!(
        CounterType::from_str("electricity"),
        Some(CounterType::Electricity)
    ));
    assert!(CounterType::from_str("gas").is_none());
    assert!(!CounterType::Water.display_name().is_empty());
}

#[test]
fn user_reminders_upsert_per_kind() {
    let mut rems = UserReminders::new();
    assert!(rems.global_enabled);
    rems.add_reminder(CounterReminder::new(CounterType::Water, 1, 10));
    rems.add_reminder(CounterReminder::new(CounterType::Electricity, 16, 25));
    // Replacing one kind leaves the other untouched.
    rems.add_reminder(CounterReminder::new(CounterType::Water, 2, 12));
    let water = rems.get_reminder(&CounterType::Water).unwrap();
    assert_eq!((water.start_day, water.end_day), (2, 12));
    let electricity = rems.get_reminder(&CounterType::Electricity).unwrap();
    assert_eq!((electricity.start_day, electricity.end_day), (16, 25));
    assert_eq!(rems.reminders.len(), 2);

    assert!(!rems.toggle_global());
    assert!(rems.toggle_global());
}

fn clock(d: u32, hour: u32) -> ClockInfo {
    ClockInfo { today: day(d), hour }
}

fn snapshot(configs: Vec<(i64, UserReminders)>) -> Vec<(i64, UserReminders)> {
    configs
}

#[test]
fn plan_skips_outside_evening_window() {
    let mut rems = UserReminders::new();
    rems.add_reminder(CounterReminder::new(CounterType::Water, 16, 25));
    let all = snapshot(vec![(7, rems)]);
    assert!(plan_tick(&all, &clock(16, 12)).is_empty());
    assert!(plan_tick(&all, &clock(16, 18)).is_empty());
    assert!(plan_tick(&all, &clock(16, 22)).is_empty());
    assert_eq!(plan_tick(&all, &clock(16, 20)).len(), 1);
    assert_eq!(plan_tick(&all, &clock(16, 19)).len(), 1);
    assert_eq!(plan_tick(&all, &clock(16, 21)).len(), 1);
}

#[test]
fn plan_respects_global_switch() {
    let mut rems = UserReminders::new();
    rems.add_reminder(CounterReminder::new(CounterType::Water, 16, 25));
    rems.global_enabled = false;
    let all = snapshot(vec![(7, rems)]);
    assert!(plan_tick(&all, &clock(16, 20)).is_empty());
}

#[test]
fn same_day_dedupe() {
    // Already notified today: nothing is planned even on a reminder day.
    let mut config = CounterReminder::new(CounterType::Water, 16, 25);
    config.last_sent_month = Some("2024-05".to_string());
    config.last_sent_date = Some("2024-05-16".to_string());
    let mut rems = UserReminders::new();
    rems.add_reminder(config);
    let all = snapshot(vec![(7, rems)]);
    assert!(plan_tick(&all, &clock(16, 20)).is_empty());

    // Notified on an earlier day: today's reminder still goes out.
    let mut config = CounterReminder::new(CounterType::Water, 16, 25);
    config.last_sent_month = Some("2024-05".to_string());
    config.last_sent_date = Some("2024-05-16".to_string());
    let mut rems = UserReminders::new();
    rems.add_reminder(config);
    let all = snapshot(vec![(7, rems)]);
    let due = plan_tick(&all, &clock(20, 20));
    assert_eq!(due.len(), 1);
    let DueReminder { chat_id, counter_type, start_day, end_day } = due[0];
    assert_eq!(chat_id, 7);
    assert!(matches!(counter_type, CounterType::Water));
    assert_eq!((start_day, end_day), (16, 25));
}

#[test]
fn phase_of_due_reminder() {
    let due = DueReminder { chat_id: 7, counter_type: CounterType::Water, start_day: 16, end_day: 25 };
    assert!(matches!(reminder_phase(&due, &day(16)), ReminderPhase::WindowStart));
    assert!(matches!(reminder_phase(&due, &day(20)), ReminderPhase::WindowMiddle));
    assert!(matches!(reminder_phase(&due, &day(23)), ReminderPhase::WindowClosing));
    assert!(matches!(reminder_phase(&due, &day(25)), ReminderPhase::WindowClosing));
}

#[test]
fn plan_due_ignores_the_hour() {
    let mut rems = UserReminders::new();
    rems.add_reminder(CounterReminder::new(CounterType::Water, 16, 25));
    let all = snapshot(vec![(7, rems)]);
    assert_eq!(plan_due(&all, &day(16)).len(), 1);
    assert!(plan_due(&all, &day(17)).is_empty());
}

#[test]
fn clock_reading_is_well_formed() {
    let clock = todo_reminders::scheduler::read_moscow_clock();
    assert!((1..=31).contains(&clock.today.day));
    assert!(clock.hour < 24);
    assert_eq!(clock.today.month_token.len(), 7);
    assert_eq!(clock.today.date_token.len(), 10);
    assert!(clock.today.date_token.starts_with(&clock.today.month_token));
}

#[test]
fn only_delivered_notifications_are_recorded() {
    assert!(matches!(
        after_dispatch(&DispatchOutcome::Delivered),
        DispatchFollowUp::RecordSent
    ));
    assert!(matches!(
        after_dispatch(&DispatchOutcome::Failed),
        DispatchFollowUp::RetryLater
    ));
}
