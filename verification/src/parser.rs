//! Parsing of free-text input: multi-line task lists with enumeration
//! prefixes, and day-window periods of the form `start-end`.

use vstd::prelude::*;
use crate::text::{trimmed, trim_str, numeral_body, all_digits, digits_value, parse_u32};
use crate::validation::{DayValidator, ValidationResult};

verus! {

/// Named by the wrapper below; relies on `char::is_alphabetic`, a
/// function of the character alone.
pub uninterp spec fn is_alpha_char(c: char) -> bool;

/// Relies on `char::is_alphabetic` from std: the Unicode `Alphabetic`
/// property of the character.
#[verifier::external_body]
pub fn char_is_alphabetic(c: char) -> (r: bool)
    ensures
        r == is_alpha_char(c),
{
    c.is_alphabetic()
}

/// Named by the wrapper below; relies on `char::is_numeric`, a function
/// of the character alone.
pub uninterp spec fn is_numeric_char(c: char) -> bool;

/// Relies on `char::is_numeric` from std: the Unicode numeric property
/// of the character.
#[verifier::external_body]
pub fn char_is_numeric(c: char) -> (r: bool)
    ensures
        r == is_numeric_char(c),
{
    c.is_numeric()
}

/// A character at which a task's real text can begin.
pub open spec fn is_break_char(c: char) -> bool {
    is_alpha_char(c) || c == '"' || c == '(' || c == '['
}

/// A character allowed in an enumeration prefix (`1.`, `2)`, `-`, `*`).
pub open spec fn is_enum_prefix_char(c: char) -> bool {
    is_numeric_char(c) || c == '.' || c == '-' || c == '*' || c == ')' || c == ' '
}

/// Index of the first break character, if any.
pub open spec fn find_break(t: Seq<char>) -> Option<int>
    decreases t.len(),
{
    if t.len() == 0 {
        None
    } else if is_break_char(t[0]) {
        Some(0)
    } else {
        match find_break(t.drop_first()) {
            Some(q) => Some(q + 1),
            None => None,
        }
    }
}

proof fn lemma_find_break_at(t: Seq<char>, p: int)
    requires
        0 <= p < t.len(),
        forall|a: int| 0 <= a < p ==> !is_break_char(t[a]),
        is_break_char(t[p]),
    ensures
        find_break(t) == Some(p),
    decreases p,
{
    if p == 0 {
    } else {
        assert(forall|a: int| 0 <= a < t.drop_first().len() ==> (#[trigger] t.drop_first()[a])
            == t[a + 1]);
        lemma_find_break_at(t.drop_first(), p - 1);
    }
}

proof fn lemma_find_break_none(t: Seq<char>)
    requires
        forall|a: int| 0 <= a < t.len() ==> !is_break_char(t[a]),
    ensures
        find_break(t) is None,
    decreases t.len(),
{
    if t.len() > 0 {
        assert(forall|a: int| 0 <= a < t.drop_first().len() ==> (#[trigger] t.drop_first()[a])
            == t[a + 1]);
        lemma_find_break_none(t.drop_first());
    }
}

/// The text kept from an already-trimmed line: an enumeration prefix
/// before the first break character is stripped and the remainder
/// trimmed again; a line without that shape is kept whole.
pub open spec fn clean_line(t: Seq<char>) -> Seq<char> {
    match find_break(t) {
        Some(p) => if forall|a: int| 0 <= a < p ==> is_enum_prefix_char(t[a]) {
            trimmed(t.skip(p))
        } else {
            t
        },
        None => t,
    }
}

/// A cleaned line worth keeping: nonempty and at most 500 characters.
pub open spec fn keep_line(t: Seq<char>) -> bool {
    clean_line(t).len() > 0 && clean_line(t).len() <= 500
}

/// Index of the first newline, or the length when there is none.
pub open spec fn newline_pos(s: Seq<char>) -> int
    decreases s.len(),
{
    if s.len() == 0 {
        0
    } else if s[0] == '\n' {
        0
    } else {
        1 + newline_pos(s.drop_first())
    }
}

pub proof fn lemma_newline_pos_range(s: Seq<char>)
    ensures
        0 <= newline_pos(s) <= s.len(),
    decreases s.len(),
{
    if s.len() > 0 && s[0] != '\n' {
        lemma_newline_pos_range(s.drop_first());
    }
}

proof fn lemma_newline_pos_at(s: Seq<char>, p: int)
    requires
        0 <= p <= s.len(),
        forall|a: int| 0 <= a < p ==> s[a] != '\n',
        p < s.len() ==> s[p] == '\n',
    ensures
        newline_pos(s) == p,
    decreases p,
{
    if s.len() == 0 {
    } else if p == 0 {
    } else {
        assert(forall|a: int| 0 <= a < s.drop_first().len() ==> (#[trigger] s.drop_first()[a])
            == s[a + 1]);
        lemma_newline_pos_at(s.drop_first(), p - 1);
    }
}

/// The first line of `s`, with a trailing carriage return stripped, the
/// way `str::lines` frames lines.
pub open spec fn line_of(s: Seq<char>) -> Seq<char> {
    let raw = s.take(newline_pos(s));
    if raw.len() > 0 && raw.last() == '\r' {
        raw.drop_last()
    } else {
        raw
    }
}

/// What remains after the first line and its newline.
pub open spec fn rest_after_line(s: Seq<char>) -> Seq<char> {
    if newline_pos(s) >= s.len() {
        Seq::empty()
    } else {
        s.skip(newline_pos(s) + 1)
    }
}

/// The task texts recognised in a multi-line input: each line is
/// trimmed, empty lines are skipped, enumeration prefixes are stripped,
/// and only results of 1 to 500 characters are kept.
pub open spec fn tasks_of_text(s: Seq<char>) -> Seq<Seq<char>>
    decreases s.len() via tasks_of_text_decreases
{
    if s.len() == 0 {
        Seq::empty()
    } else {
        let t = trimmed(line_of(s));
        let rest = tasks_of_text(rest_after_line(s));
        if t.len() > 0 && keep_line(t) {
            seq![clean_line(t)] + rest
        } else {
            rest
        }
    }
}

#[via_fn]
proof fn tasks_of_text_decreases(s: Seq<char>) {
    if s.len() > 0 {
        lemma_newline_pos_range(s);
    }
}

/// Executable test for [`is_break_char`].
fn is_break(c: char) -> (r: bool)
    ensures
        r == is_break_char(c),
{
    char_is_alphabetic(c) || c == '"' || c == '(' || c == '['
}

/// Executable test for [`is_enum_prefix_char`].
fn is_enum_prefix(c: char) -> (r: bool)
    ensures
        r == is_enum_prefix_char(c),
{
    char_is_numeric(c) || c == '.' || c == '-' || c == '*' || c == ')' || c == ' '
}

/// Strip an enumeration prefix from an already-trimmed line.
fn clean_line_exec(t: &str) -> (r: String)
    ensures
        r@ == clean_line(t@),
{
    let n = t.unicode_len();
    let mut p: usize = 0;
    while p < n && !is_break(t.get_char(p))
        invariant
            0 <= p <= n,
            n == t@.len(),
            forall|a: int| 0 <= a < p ==> !is_break_char(t@[a]),
        decreases n - p,
    {
        p = p + 1;
    }
    if p == n {
        proof {
            lemma_find_break_none(t@);
        }
        return t.to_owned();
    }
    proof {
        lemma_find_break_at(t@, p as int);
    }
    let mut a: usize = 0;
    let mut prefix_ok = true;
    while a < p && prefix_ok
        invariant
            0 <= a <= p,
            p < n,
            n == t@.len(),
            prefix_ok ==> forall|b: int| 0 <= b < a ==> is_enum_prefix_char(t@[b]),
            !prefix_ok ==> exists|b: int| 0 <= b < p && !is_enum_prefix_char(t@[b]),
        decreases p - a,
    {
        let good = is_enum_prefix(t.get_char(a));
        if !good {
            prefix_ok = false;
            proof {
                assert(!is_enum_prefix_char(t@[a as int]));
            }
        }
        a = a + 1;
    }
    if prefix_ok {
        let rest = t.substring_char(p, n);
        proof {
            assert(rest@ == t@.skip(p as int));
        }
        trim_str(rest)
    } else {
        t.to_owned()
    }
}

/// Split a free-text message into task texts, one per useful line.
pub fn parse_task_list(text: &str) -> (r: Vec<String>)
    ensures
        r.deep_view() == tasks_of_text(text@),
{
    let n = text.unicode_len();
    let mut out: Vec<String> = Vec::new();
    let mut pos: usize = 0;
    proof {
        assert(text@.skip(0) =~= text@);
    }
    while pos < n
        invariant
            0 <= pos <= n,
            n == text@.len(),
            tasks_of_text(text@) == out.deep_view() + tasks_of_text(text@.skip(pos as int)),
        decreases n - pos,
    {
        let ghost s0 = text@.skip(pos as int);
        // Find the end of the current line.
        let mut e: usize = pos;
        while e < n && text.get_char(e) != '\n'
            invariant
                pos <= e <= n,
                n == text@.len(),
                forall|a: int| pos <= a < e ==> text@[a] != '\n',
            decreases n - e,
        {
            e = e + 1;
        }
        proof {
            assert(forall|a: int| 0 <= a < e - pos ==> s0[a] == text@[a + pos]);
            if e < n {
                assert(s0[e - pos] == text@[e as int]);
            }
            lemma_newline_pos_at(s0, e - pos);
        }
        // Frame the line, stripping a trailing carriage return.
        let line_end: usize = if e > pos && text.get_char(e - 1) == '\r' {
            e - 1
        } else {
            e
        };
        let line = text.substring_char(pos, line_end);
        proof {
            let raw = s0.take(e - pos);
            assert(raw =~= text@.subrange(pos as int, e as int));
            if e > pos && text@[e - 1] == '\r' {
                assert(raw.len() > 0 && raw.last() == '\r');
                assert(line@ =~= raw.drop_last());
            } else {
                if raw.len() > 0 {
                    assert(raw.last() == text@[e - 1]);
                }
                assert(line@ =~= raw);
            }
            assert(line@ == line_of(s0));
        }
        let t = trim_str(line);
        let ghost tv = trimmed(line_of(s0));
        if t.as_str().unicode_len() > 0 {
            let cleaned = clean_line_exec(t.as_str());
            let cn = cleaned.as_str().unicode_len();
            if cn > 0 && cn <= 500 {
                out.push(cleaned);
                proof {
                    assert(keep_line(tv));
                }
            } else {
                proof {
                    assert(!keep_line(tv));
                }
            }
        }
        let ghost old_pos = pos as int;
        if e < n {
            pos = e + 1;
        } else {
            pos = n;
        }
        proof {
            // One line was consumed: the specification's recursion step.
            if e < n {
                assert(rest_after_line(s0) =~= text@.skip(pos as int));
            } else {
                assert(newline_pos(s0) >= s0.len());
                assert(rest_after_line(s0) =~= text@.skip(pos as int));
            }
            assert(s0.len() > 0);
            assert(tasks_of_text(s0) == (if trimmed(line_of(s0)).len() > 0 && keep_line(
                trimmed(line_of(s0)),
            ) {
                seq![clean_line(trimmed(line_of(s0)))] + tasks_of_text(rest_after_line(s0))
            } else {
                tasks_of_text(rest_after_line(s0))
            }));
            assert(tasks_of_text(text@) == out.deep_view() + tasks_of_text(
                text@.skip(pos as int),
            ));
        }
    }
    proof {
        assert(text@.skip(n as int) =~= Seq::<char>::empty());
        assert(tasks_of_text(text@) =~= out.deep_view());
    }
    out
}

/// Why a period input was rejected.
#[derive(Clone, Copy, Debug, PartialEq, Eq, Structural)]
pub enum PeriodError {
    /// Not exactly one `-` separator.
    Format,
    /// The part before the separator is not a day number.
    StartDay,
    /// The part after the separator is not a day number.
    EndDay,
    /// The days do not form a window inside the month.
    Range,
}

/// Occurrences of `c` in `s`.
pub open spec fn count_char(s: Seq<char>, c: char) -> int
    decreases s.len(),
{
    if s.len() == 0 {
        0
    } else {
        count_char(s.drop_last(), c) + if s.last() == c {
            1int
        } else {
            0int
        }
    }
}

/// The day number a period part denotes, if any: the part is trimmed
/// and read as a decimal number within `u32` range.
pub open spec fn parse_day_part(part: Seq<char>) -> Option<int> {
    let b = numeral_body(trimmed(part));
    if b.len() > 0 && all_digits(b) && digits_value(b) <= u32::MAX {
        Some(digits_value(b))
    } else {
        None
    }
}

/// The window a period input denotes, by the same reading the parser
/// performs.
pub open spec fn spec_parse_period(s: Seq<char>) -> Result<(u32, u32), PeriodError> {
    if count_char(s, '-') != 1 {
        Err(PeriodError::Format)
    } else {
        let p = dash_pos(s);
        match parse_day_part(s.take(p)) {
            None => Err(PeriodError::StartDay),
            Some(a) => match parse_day_part(s.skip(p + 1)) {
                None => Err(PeriodError::EndDay),
                Some(b) => if 1 <= a <= 31 && 1 <= b <= 31 && a <= b {
                    Ok(((a as u32), (b as u32)))
                } else {
                    Err(PeriodError::Range)
                },
            },
        }
    }
}

/// Index of the first `-`, or the length when there is none.
pub open spec fn dash_pos(s: Seq<char>) -> int
    decreases s.len(),
{
    if s.len() == 0 {
        0
    } else if s[0] == '-' {
        0
    } else {
        1 + dash_pos(s.drop_first())
    }
}

proof fn lemma_dash_pos_at(s: Seq<char>, p: int)
    requires
        0 <= p <= s.len(),
        forall|a: int| 0 <= a < p ==> s[a] != '-',
        p < s.len() ==> s[p] == '-',
    ensures
        dash_pos(s) == p,
    decreases p,
{
    if s.len() == 0 {
    } else if p == 0 {
    } else {
        assert(forall|a: int| 0 <= a < s.drop_first().len() ==> (#[trigger] s.drop_first()[a])
            == s[a + 1]);
        lemma_dash_pos_at(s.drop_first(), p - 1);
    }
}

proof fn lemma_count_char_take(s: Seq<char>, c: char, j: int)
    requires
        0 <= j < s.len(),
    ensures
        count_char(s.take(j + 1), c) == count_char(s.take(j), c) + (if s[j] == c {
            1int
        } else {
            0int
        }),
{
    assert(s.take(j + 1).drop_last() =~= s.take(j));
    assert(s.take(j + 1).last() == s[j]);
}

/// Read a `start-end` period input.  Exactly one dash must separate two
/// day numbers forming a window inside the month.
pub fn parse_period(text: &str) -> (r: Result<(u32, u32), PeriodError>)
    ensures
        r == spec_parse_period(text@),
{
    let n = text.unicode_len();
    // Count the dashes and remember the first.
    let mut dashes: usize = 0;
    let mut first: usize = n;
    let mut i: usize = 0;
    while i < n
        invariant
            0 <= i <= n,
            n == text@.len(),
            dashes == count_char(text@.take(i as int), '-'),
            dashes <= i,
            dashes == 0 ==> first == n && (forall|a: int| 0 <= a < i ==> text@[a] != '-'),
            dashes > 0 ==> first < i && text@[first as int] == '-' && (forall|a: int|
                0 <= a < first ==> text@[a] != '-'),
        decreases n - i,
    {
        proof {
            lemma_count_char_take(text@, '-', i as int);
        }
        if text.get_char(i) == '-' {
            if dashes == 0 {
                first = i;
            }
            dashes = dashes + 1;
        }
        i = i + 1;
    }
    proof {
        assert(text@.take(n as int) =~= text@);
    }
    if dashes != 1 {
        return Err(PeriodError::Format);
    }
    proof {
        lemma_dash_pos_at(text@, first as int);
    }
    let left = text.substring_char(0, first);
    let right = text.substring_char(first + 1, n);
    proof {
        assert(left@ =~= text@.take(first as int));
        assert(right@ =~= text@.skip(first + 1));
    }
    let left_trimmed = trim_str(left);
    let start_day = match parse_u32(left_trimmed.as_str()) {
        Some(d) => d,
        None => {
            return Err(PeriodError::StartDay);
        },
    };
    let right_trimmed = trim_str(right);
    let end_day = match parse_u32(right_trimmed.as_str()) {
        Some(d) => d,
        None => {
            return Err(PeriodError::EndDay);
        },
    };
    match DayValidator::validate_day_range(start_day, end_day) {
        ValidationResult::Valid => Ok((start_day, end_day)),
        ValidationResult::Invalid(_) => Err(PeriodError::Range),
    }
}

} // verus!
