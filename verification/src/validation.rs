//! Validation of task text, numeric indices, day ranges and chat
//! identities.  The character-class checks go through the `regex` crate,
//! whose matcher is trusted to implement the class stated by
//! [`is_allowed_char`]; everything around those calls is verified.

use vstd::prelude::*;
use crate::text::{
    is_ws_char, is_ws, is_digit_char, is_digit, trimmed, drop_leading_ws, drop_trailing_ws,
};

verus! {

/// Punctuation accepted in task text.
pub open spec fn is_allowed_punct(c: char) -> bool {
    ||| c == '.' ||| c == ',' ||| c == '!' ||| c == '?' ||| c == '-' ||| c == '_'
    ||| c == '(' ||| c == ')' ||| c == '[' ||| c == ']' ||| c == '{' ||| c == '}'
    ||| c == '@' ||| c == '#' ||| c == '$' ||| c == '%' ||| c == '^' ||| c == '&'
    ||| c == '*' ||| c == '+' ||| c == '=' ||| c == '|' ||| c == '\\' ||| c == '/'
    ||| c == ':' ||| c == ';' ||| c == '"' ||| c == '\'' ||| c == '<' ||| c == '>'
    ||| c == '~' ||| c == '`'
}

/// The class of characters task text may contain: ASCII letters and
/// digits, the basic Cyrillic letter ranges, whitespace, and a fixed set
/// of punctuation.
pub open spec fn is_allowed_char(c: char) -> bool {
    ||| ('a' <= c && c <= 'z')
    ||| ('A' <= c && c <= 'Z')
    ||| ('0' <= c && c <= '9')
    ||| ('\u{430}' <= c && c <= '\u{44f}')
    ||| ('\u{410}' <= c && c <= '\u{42f}')
    ||| is_ws_char(c)
    ||| is_allowed_punct(c)
}

/// Some character of `t` is allowed.
pub open spec fn has_allowed_char(t: Seq<char>) -> bool {
    exists|i: int| 0 <= i < t.len() && is_allowed_char(t[i])
}

/// A run of six equal characters starts at index `i`.
pub open spec fn run_of_six_at(t: Seq<char>, i: int) -> bool {
    0 <= i && i + 5 < t.len() && (forall|j: int| i <= j <= i + 5 ==> t[j] == t[i])
}

/// Six or more equal characters in a row.
pub open spec fn has_excessive_repetition(t: Seq<char>) -> bool {
    exists|i: int| run_of_six_at(t, i)
}

/// Number of decimal digits in `t`.
pub open spec fn digit_count(t: Seq<char>) -> int
    decreases t.len(),
{
    if t.len() == 0 {
        0
    } else {
        digit_count(t.drop_last()) + if is_digit_char(t.last()) {
            1int
        } else {
            0int
        }
    }
}

/// More than half of the characters are digits.
pub open spec fn too_many_digits(t: Seq<char>) -> bool {
    digit_count(t) > t.len() / 2
}

/// A task text is acceptable when it is nonempty, not longer than 500
/// characters, not whitespace only, holds at least one allowed character,
/// has no run of more than five equal characters, and is not dominated by
/// digits.
pub open spec fn task_text_ok(t: Seq<char>) -> bool {
    &&& t.len() >= 1
    &&& t.len() <= 500
    &&& trimmed(t).len() > 0
    &&& has_allowed_char(t)
    &&& !has_excessive_repetition(t)
    &&& !too_many_digits(t)
}

/// The message reported for the first failing task-text rule.
pub open spec fn task_text_error(t: Seq<char>) -> Seq<char> {
    if t.len() < 1 {
        "Текст задачи не может быть пустым"@
    } else if t.len() > 500 {
        "Текст задачи слишком длинный (максимум 500 символов)"@
    } else if trimmed(t).len() == 0 {
        "Текст задачи не может содержать только пробелы"@
    } else if !has_allowed_char(t) {
        "Текст содержит недопустимые символы"@
    } else if has_excessive_repetition(t) {
        "Текст содержит слишком много повторяющихся символов"@
    } else {
        "Текст содержит подозрительные паттерны"@
    }
}

/// Outcome of a validation check.
#[derive(Debug, PartialEq)]
pub enum ValidationResult {
    Valid,
    Invalid(String),
}

// --- run-length facts used by the repetition check ---

/// Length of the maximal run of equal characters ending at index `i`.
spec fn run_len(t: Seq<char>, i: int) -> int
    decreases i,
{
    if i <= 0 {
        1
    } else if t[i] == t[i - 1] {
        run_len(t, i - 1) + 1
    } else {
        1
    }
}

proof fn lemma_run_chars(t: Seq<char>, i: int, d: int)
    requires
        0 <= i < t.len(),
        0 <= d < run_len(t, i),
        d <= i,
    ensures
        t[i - d] == t[i],
    decreases d,
{
    if d > 0 {
        assert(t[i] == t[i - 1]);
        lemma_run_chars(t, i - 1, d - 1);
    }
}

proof fn lemma_run_len_pos(t: Seq<char>, i: int)
    ensures
        run_len(t, i) >= 1,
    decreases i,
{
    if i > 0 && t[i] == t[i - 1] {
        lemma_run_len_pos(t, i - 1);
    }
}

proof fn lemma_run_len_le(t: Seq<char>, i: int)
    requires
        0 <= i,
    ensures
        run_len(t, i) <= i + 1,
    decreases i,
{
    if i > 0 && t[i] == t[i - 1] {
        lemma_run_len_le(t, i - 1);
    }
}

proof fn lemma_seg_to_run(t: Seq<char>, i0: int, d: int)
    requires
        0 <= i0,
        i0 + 5 < t.len(),
        forall|j: int| i0 <= j <= i0 + 5 ==> t[j] == t[i0],
        0 <= d <= 5,
    ensures
        run_len(t, i0 + d) >= d + 1,
    decreases d,
{
    if d > 0 {
        lemma_seg_to_run(t, i0, d - 1);
        assert(t[i0 + d] == t[i0]);
        assert(t[i0 + d - 1] == t[i0]);
    } else {
        lemma_run_len_pos(t, i0);
    }
}

/// The validator for free-text task input.  The allowed-character class
/// is held as a compiled regular expression.
pub struct TaskValidator {
    allowed_chars_regex: regex::Regex,
}

/// Declaration of the `regex` crate's compiled-pattern type.
#[verifier::external_type_specification]
#[verifier::external_body]
pub struct ExRegex(regex::Regex);

/// A validator could not be constructed.
#[derive(Debug)]
pub enum ValidatorError {
    /// The allowed-character pattern failed to compile.
    Pattern,
}

/// Relies on `regex::Regex::new`: compiles the allowed-character class.
/// The pattern below is exactly the class stated by [`is_allowed_char`]:
/// ASCII letters and digits, Cyrillic letters, whitespace (`\s`, the
/// Unicode white-space set) and the listed punctuation.  The pattern is
/// a constant, valid expression, so compilation succeeds.
#[verifier::external_body]
fn compile_allowed_class() -> (r: Option<regex::Regex>)
    ensures
        r is Some,
{
    regex::Regex::new(
        "[a-zA-Zа-яА-Я0-9\\s.,!?\\-_()\\[\\]{}@#$%^&*+=|\\\\/:;\"'<>~`]",
    ).ok()
}

impl TaskValidator {
    /// Build a validator by compiling the allowed-character class; the
    /// class is constant and valid, so this always succeeds.
    pub fn new() -> (r: Result<TaskValidator, ValidatorError>)
        ensures
            r is Ok,
    {
        match compile_allowed_class() {
            Some(re) => Ok(TaskValidator { allowed_chars_regex: re }),
            None => Err(ValidatorError::Pattern),
        }
    }

    /// Relies on `regex::Regex::is_match`: a character class matches a
    /// haystack iff some character of the haystack is in the class.  The
    /// only constructor compiles the class of [`is_allowed_char`].
    #[verifier::external_body]
    fn contains_allowed_char(&self, text: &str) -> (r: bool)
        ensures
            r == has_allowed_char(text@),
    {
        self.allowed_chars_regex.is_match(text)
    }

    /// Relies on `regex::Regex::is_match` applied to a one-character
    /// string: it matches iff that character is in the class.
    #[verifier::external_body]
    fn char_allowed(&self, c: char) -> (r: bool)
        ensures
            r == is_allowed_char(c),
    {
        self.allowed_chars_regex.is_match(c.to_string().as_str())
    }

    /// Check a task text against every rule of [`task_text_ok`], reporting
    /// the first failing rule's message.
    pub fn validate_task_text(&self, text: &str) -> (r: ValidationResult)
        ensures
            r is Valid <==> task_text_ok(text@),
            r matches ValidationResult::Invalid(m) ==> m@ == task_text_error(text@),
    {
        let n = text.unicode_len();
        if n < 1 {
            return ValidationResult::Invalid(
                "Текст задачи не может быть пустым".to_owned(),
            );
        }
        if n > 500 {
            return ValidationResult::Invalid(
                "Текст задачи слишком длинный (максимум 500 символов)".to_owned(),
            );
        }
        let t = crate::text::trim_str(text);
        if t.as_str().unicode_len() == 0 {
            return ValidationResult::Invalid(
                "Текст задачи не может содержать только пробелы".to_owned(),
            );
        }
        if !self.contains_allowed_char(text) {
            return ValidationResult::Invalid(
                "Текст содержит недопустимые символы".to_owned(),
            );
        }
        if self.check_excessive_repetition(text) {
            return ValidationResult::Invalid(
                "Текст содержит слишком много повторяющихся символов".to_owned(),
            );
        }
        if self.check_suspicious_patterns(text) {
            return ValidationResult::Invalid(
                "Текст содержит подозрительные паттерны".to_owned(),
            );
        }
        ValidationResult::Valid
    }

    /// Detect a run of more than five equal characters.
    fn check_excessive_repetition(&self, text: &str) -> (r: bool)
        ensures
            r == has_excessive_repetition(text@),
    {
        let n = text.unicode_len();
        let mut current: char = ' ';
        let mut count: usize = 0;
        let mut i: usize = 0;
        while i < n
            invariant
                0 <= i <= n,
                n == text@.len(),
                i > 0 ==> current == text@[i - 1] && count == run_len(text@, i - 1),
                i == 0 ==> current == ' ' && count == 0,
                count <= i,
                forall|k: int| 0 <= k < i ==> run_len(text@, k) <= 5,
            decreases n - i,
        {
            let c = text.get_char(i);
            if c == current {
                count = count + 1;
                proof {
                    if i == 0 {
                        assert(run_len(text@, 0) == 1);
                    }
                    lemma_run_len_le(text@, i as int);
                }
                if count > 5 {
                    // A run of six equal characters ends here; its start
                    // is the witness for the specification.
                    proof {
                        let t = text@;
                        let i0 = i - 5;
                        assert(run_len(t, i as int) == count);
                        assert forall|j: int| i0 <= j <= i0 + 5 implies t[j] == t[i0] by {
                            lemma_run_chars(t, i as int, i - j);
                            lemma_run_chars(t, i as int, 5);
                        }
                        assert(run_of_six_at(t, i0));
                    }
                    return true;
                }
            } else {
                current = c;
                count = 1;
                proof {
                    lemma_run_len_pos(text@, i as int);
                }
            }
            i = i + 1;
        }
        proof {
            let t = text@;
            if has_excessive_repetition(t) {
                let i0 = choose|i0: int| run_of_six_at(t, i0);
                lemma_seg_to_run(t, i0, 5);
                assert(run_len(t, i0 + 5) >= 6);
            }
        }
        false
    }

    /// Detect text dominated by digits (more than half of it).
    fn check_suspicious_patterns(&self, text: &str) -> (r: bool)
        ensures
            r == too_many_digits(text@),
    {
        let n = text.unicode_len();
        let mut digits: usize = 0;
        let mut i: usize = 0;
        while i < n
            invariant
                0 <= i <= n,
                n == text@.len(),
                digits == digit_count(text@.take(i as int)),
                digits <= i,
            decreases n - i,
        {
            let c = text.get_char(i);
            proof {
                assert(text@.take(i + 1).drop_last() =~= text@.take(i as int));
                assert(text@.take(i + 1).last() == text@[i as int]);
            }
            if is_digit(c) {
                digits = digits + 1;
            }
            i = i + 1;
        }
        proof {
            assert(text@.take(n as int) =~= text@);
        }
        digits > n / 2
    }

    /// Keep only allowed characters, cap the length at 500, and trim.
    pub fn sanitize_task_text(&self, text: &str) -> (r: String)
        ensures
            r@ == trimmed(cap500(filter_allowed(text@))),
    {
        let n = text.unicode_len();
        let mut kept: Vec<char> = Vec::new();
        let mut i: usize = 0;
        while i < n
            invariant
                0 <= i <= n,
                n == text@.len(),
                kept@ == cap500(filter_allowed(text@.take(i as int))),
                kept@.len() <= 500,
            decreases n - i,
        {
            let c = text.get_char(i);
            proof {
                assert(text@.take(i + 1).drop_last() =~= text@.take(i as int));
                assert(text@.take(i + 1).last() == text@[i as int]);
            }
            if kept.len() < 500 && self.char_allowed(c) {
                kept.push(c);
                proof {
                    lemma_filter_le(text@.take(i as int));
                    assert(filter_allowed(text@.take(i + 1))
                        == filter_allowed(text@.take(i as int)).push(text@[i as int]));
                    assert(cap500(filter_allowed(text@.take(i + 1))) =~= kept@);
                }
            } else {
                proof {
                    let f = filter_allowed(text@.take(i as int));
                    let f1 = filter_allowed(text@.take(i + 1));
                    if is_allowed_char(text@[i as int]) {
                        assert(f1 == f.push(text@[i as int]));
                        assert(f.len() >= 500);
                        assert(cap500(f1) =~= cap500(f));
                    } else {
                        assert(f1 == f);
                    }
                }
            }
            i = i + 1;
        }
        proof {
            assert(text@.take(n as int) =~= text@);
        }
        // Trim whitespace from the kept characters.
        let mut a: usize = 0;
        let m = kept.len();
        proof {
            assert(kept@.skip(0) =~= kept@);
        }
        while a < m && is_ws(kept[a])
            invariant
                0 <= a <= m,
                m == kept@.len(),
                forall|j: int| 0 <= j < a ==> is_ws_char(kept@[j]),
                drop_leading_ws(kept@) == drop_leading_ws(kept@.skip(a as int)),
            decreases m - a,
        {
            proof {
                lemma_drop_leading_step_v(kept@, a as int);
            }
            a = a + 1;
        }
        proof {
            if a == m {
                assert(kept@.skip(a as int) =~= Seq::<char>::empty());
            }
            assert(drop_leading_ws(kept@) == kept@.skip(a as int));
            assert(kept@.skip(a as int).take(m - a) =~= kept@.skip(a as int));
        }
        let mut b: usize = m;
        while b > a && is_ws(kept[b - 1])
            invariant
                a <= b <= m,
                m == kept@.len(),
                drop_trailing_ws(kept@.skip(a as int)) == drop_trailing_ws(
                    kept@.skip(a as int).take(b - a),
                ),
            decreases b,
        {
            proof {
                lemma_drop_trailing_step_v(kept@.skip(a as int), b - a);
            }
            b = b - 1;
        }
        proof {
            let t = kept@.skip(a as int);
            if b == a {
                assert(t.take(0) =~= Seq::<char>::empty());
            } else {
                assert(t.take(b - a)[b - a - 1] == kept@[b - 1]);
            }
            assert(drop_trailing_ws(t) == t.take(b - a));
        }
        let mut out = String::new();
        let mut k: usize = a;
        while k < b
            invariant
                a <= k <= b <= m,
                m == kept@.len(),
                out@ == kept@.subrange(a as int, k as int),
            decreases b - k,
        {
            crate::text::push_char(&mut out, kept[k]);
            proof {
                assert(kept@.subrange(a as int, k + 1)
                    =~= kept@.subrange(a as int, k as int).push(kept@[k as int]));
            }
            k = k + 1;
        }
        proof {
            assert(kept@.subrange(a as int, b as int)
                =~= kept@.skip(a as int).take(b - a));
        }
        out
    }

    /// Reject messages longer than 4000 characters.
    pub fn validate_message(&self, message: &str) -> (r: ValidationResult)
        ensures
            r is Valid <==> message@.len() <= 4000,
            r matches ValidationResult::Invalid(m) ==> m@ == "Сообщение слишком длинное (максимум 4000 символов)"@,
    {
        if message.unicode_len() > 4000 {
            return ValidationResult::Invalid(
                "Сообщение слишком длинное (максимум 4000 символов)".to_owned(),
            );
        }
        ValidationResult::Valid
    }
}

/// The characters of `t` that are allowed, in order.
pub open spec fn filter_allowed(t: Seq<char>) -> Seq<char>
    decreases t.len(),
{
    if t.len() == 0 {
        Seq::empty()
    } else if is_allowed_char(t.last()) {
        filter_allowed(t.drop_last()).push(t.last())
    } else {
        filter_allowed(t.drop_last())
    }
}

/// At most the first 500 elements of `t`.
pub open spec fn cap500(t: Seq<char>) -> Seq<char> {
    if t.len() <= 500 {
        t
    } else {
        t.take(500)
    }
}

proof fn lemma_filter_le(t: Seq<char>)
    ensures
        filter_allowed(t).len() <= t.len(),
    decreases t.len(),
{
    if t.len() > 0 {
        lemma_filter_le(t.drop_last());
    }
}

proof fn lemma_drop_leading_step_v(s: Seq<char>, i: int)
    requires
        0 <= i < s.len(),
        is_ws_char(s[i]),
    ensures
        drop_leading_ws(s.skip(i)) == drop_leading_ws(s.skip(i + 1)),
{
    assert(s.skip(i).len() > 0);
    assert(s.skip(i)[0] == s[i]);
    assert(s.skip(i).drop_first() =~= s.skip(i + 1));
}

proof fn lemma_drop_trailing_step_v(s: Seq<char>, j: int)
    requires
        0 < j <= s.len(),
        is_ws_char(s[j - 1]),
    ensures
        drop_trailing_ws(s.take(j)) == drop_trailing_ws(s.take(j - 1)),
{
    assert(s.take(j).len() == j);
    assert(s.take(j)[j - 1] == s[j - 1]);
    assert(s.take(j).drop_last() =~= s.take(j - 1));
}

/// Validation of positional task indices.
pub struct TaskIndexValidator;

impl TaskIndexValidator {
    /// An index is valid when there are tasks and it addresses one.
    pub fn validate_task_index(index: usize, total_tasks: usize) -> (r: ValidationResult)
        ensures
            r is Valid <==> (total_tasks > 0 && index < total_tasks),
            r matches ValidationResult::Invalid(m) ==> m@ == (if total_tasks == 0 {
                "Нет доступных задач"@
            } else {
                "Неверный номер задачи"@
            }),
    {
        if total_tasks == 0 {
            return ValidationResult::Invalid("Нет доступных задач".to_owned());
        }
        if index >= total_tasks {
            return ValidationResult::Invalid("Неверный номер задачи".to_owned());
        }
        ValidationResult::Valid
    }
}

/// Validation of day-of-month values and windows.
pub struct DayValidator;

impl DayValidator {
    /// A day of month must lie in 1..=31.
    pub fn validate_day(day: u32) -> (r: ValidationResult)
        ensures
            r is Valid <==> (1 <= day <= 31),
            r matches ValidationResult::Invalid(m) ==> m@ == "День должен быть от 1 до 31"@,
    {
        if day < 1 || day > 31 {
            return ValidationResult::Invalid("День должен быть от 1 до 31".to_owned());
        }
        ValidationResult::Valid
    }

    /// A day window must have both ends in 1..=31 and start at or before
    /// its end.
    pub fn validate_day_range(start_day: u32, end_day: u32) -> (r: ValidationResult)
        ensures
            r is Valid <==> (1 <= start_day <= 31 && 1 <= end_day <= 31 && start_day <= end_day),
            r matches ValidationResult::Invalid(m) ==> m@ == (if !(1 <= start_day <= 31) {
                "Начальный день: "@ + "День должен быть от 1 до 31"@
            } else if !(1 <= end_day <= 31) {
                "Конечный день: "@ + "День должен быть от 1 до 31"@
            } else {
                "Начальный день не может быть больше конечного"@
            }),
    {
        if let ValidationResult::Invalid(msg) = Self::validate_day(start_day) {
            let prefix: String = "Начальный день: ".to_owned();
            return ValidationResult::Invalid(prefix.concat(msg.as_str()));
        }
        if let ValidationResult::Invalid(msg) = Self::validate_day(end_day) {
            let prefix: String = "Конечный день: ".to_owned();
            return ValidationResult::Invalid(prefix.concat(msg.as_str()));
        }
        if start_day > end_day {
            return ValidationResult::Invalid(
                "Начальный день не может быть больше конечного".to_owned(),
            );
        }
        ValidationResult::Valid
    }
}

/// Validation of chat identities.
pub struct ChatIdValidator;

impl ChatIdValidator {
    /// A chat id must be positive and within the transport's plausible
    /// range.
    pub fn validate_chat_id(chat_id: i64) -> (r: ValidationResult)
        ensures
            r is Valid <==> (0 < chat_id <= 999999999999i64),
            r matches ValidationResult::Invalid(m) ==> m@ == (if chat_id <= 0 {
                "Неверный Chat ID"@
            } else {
                "Chat ID слишком большой"@
            }),
    {
        if chat_id <= 0 {
            return ValidationResult::Invalid("Неверный Chat ID".to_owned());
        }
        if chat_id > 999999999999 {
            return ValidationResult::Invalid("Chat ID слишком большой".to_owned());
        }
        ValidationResult::Valid
    }
}

} // verus!
