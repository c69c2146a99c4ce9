use todo_reminders::validation::{
    ChatIdValidator, DayValidator, TaskIndexValidator, TaskValidator, ValidationResult,
};

#[test]
fn test_task_validation() {
    let validator = TaskValidator::new().unwrap();

    assert_eq!(
        validator.validate_task_text("Купить молоко"),
        ValidationResult::Valid
    );
    assert_eq!(
        validator.validate_task_text("Позвонить маме"),
        ValidationResult::Valid
    );
    assert_eq!(
        validator.validate_task_text("Задача с цифрами 123"),
        ValidationResult::Valid
    );

    assert!(matches!(
        validator.validate_task_text(""),
        ValidationResult::Invalid(_)
    ));
    assert!(matches!(
        validator.validate_task_text("   "),
        ValidationResult::Invalid(_)
    ));
    assert!(matches!(
        validator.validate_task_text(&"a".repeat(501)),
        ValidationResult::Invalid(_)
    ));
}

#[test]
fn test_forbidden_words() {
    let validator = TaskValidator::new().unwrap();

    assert_eq!(
        validator.validate_task_text("Купить bitcoin"),
        ValidationResult::Valid
    );
    assert_eq!(
        validator.validate_task_text("Перейти на http://example.com"),
        ValidationResult::Valid
    );
}

#[test]
fn test_excessive_repetition() {
    let validator = TaskValidator::new().unwrap();

    assert!(matches!(
        validator.validate_task_text("Купить молоко!!!!!!"),
        ValidationResult::Invalid(_)
    ));
    assert!(matches!(
        validator.validate_task_text("Задача      с      пробелами"),
        ValidationResult::Invalid(_)
    ));
}

#[test]
fn test_task_index_validation() {
    assert_eq!(
        TaskIndexValidator::validate_task_index(0, 3),
        ValidationResult::Valid
    );
    assert_eq!(
        TaskIndexValidator::validate_task_index(2, 3),
        ValidationResult::Valid
    );
    assert!(matches!(
        TaskIndexValidator::validate_task_index(3, 3),
        ValidationResult::Invalid(_)
    ));
    assert!(matches!(
        TaskIndexValidator::validate_task_index(0, 0),
        ValidationResult::Invalid(_)
    ));
}

#[test]
fn test_day_validation() {
    assert_eq!(DayValidator::validate_day(1), ValidationResult::Valid);
    assert_eq!(DayValidator::validate_day(31), ValidationResult::Valid);
    assert!(matches!(
        DayValidator::validate_day(0),
        ValidationResult::Invalid(_)
    ));
    assert!(matches!(
        DayValidator::validate_day(32),
        ValidationResult::Invalid(_)
    ));
}

#[test]
fn day_range_rules() {
    assert_eq!(DayValidator::validate_day_range(16, 25), ValidationResult::Valid);
    assert_eq!(DayValidator::validate_day_range(1, 1), ValidationResult::Valid);
    // Each failure reports the first broken rule.
    assert!(matches!(
        DayValidator::validate_day_range(0, 25),
        ValidationResult::Invalid(_)
    ));
    assert!(matches!(
        DayValidator::validate_day_range(16, 32),
        ValidationResult::Invalid(_)
    ));
    assert!(matches!(
        DayValidator::validate_day_range(25, 16),
        ValidationResult::Invalid(_)
    ));
}

#[test]
fn chat_id_rules() {
    assert_eq!(ChatIdValidator::validate_chat_id(1), ValidationResult::Valid);
    assert_eq!(
        ChatIdValidator::validate_chat_id(999_999_999_999),
        ValidationResult::Valid
    );
    assert!(matches!(
        ChatIdValidator::validate_chat_id(0),
        ValidationResult::Invalid(_)
    ));
    assert!(matches!(
        ChatIdValidator::validate_chat_id(-5),
        ValidationResult::Invalid(_)
    ));
    assert!(matches!(
        ChatIdValidator::validate_chat_id(1_000_000_000_000),
        ValidationResult::Invalid(_)
    ));
}

#[test]
fn rejects_text_without_allowed_characters() {
    // Would pass if the character-class matcher accepted everything.
    let validator = TaskValidator::new().unwrap();
    assert!(matches!(
        validator.validate_task_text("€€€"),
        ValidationResult::Invalid(_)
    ));
}

#[test]
fn rejects_digit_dominated_text() {
    let validator = TaskValidator::new().unwrap();
    assert!(matches!(
        validator.validate_task_text("12345 ab"),
        ValidationResult::Invalid(_)
    ));
}

#[test]
fn sanitize_filters_and_trims() {
    // Would fail if the per-character matcher or the string builder
    // handed its input back unchanged.
    let validator = TaskValidator::new().unwrap();
    assert_eq!(validator.sanitize_task_text("  abc€def  "), "abcdef");
    assert_eq!(validator.sanitize_task_text("привет мир"), "привет мир");
    let long = "b".repeat(600);
    assert_eq!(validator.sanitize_task_text(&long).chars().count(), 500);
}

#[test]
fn message_length_limit() {
    let validator = TaskValidator::new().unwrap();
    assert_eq!(validator.validate_message(&"c".repeat(4000)), ValidationResult::Valid);
    assert!(matches!(
        validator.validate_message(&"c".repeat(4001)),
        ValidationResult::Invalid(_)
    ));
}
