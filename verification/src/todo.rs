//! Task records: free-text items with a generated identity, a completion
//! flag and a creation timestamp.

use vstd::prelude::*;

verus! {

/// One task in a user's ordered list.
#[derive(Debug)]
pub struct TodoItem {
    pub id: String,
    pub text: String,
    pub completed: bool,
    /// Creation time as Unix seconds.
    pub created_at: i64,
}

/// Relies on `uuid::Uuid::new_v4` and its `Display` form: a freshly drawn
/// random identifier, rendered in the 36-character hyphenated format.
/// Nothing more is assumed: the value depends on a random source.
#[verifier::external_body]
fn fresh_task_id() -> (r: String)
    ensures
        r@.len() == 36,
{
    uuid::Uuid::new_v4().to_string()
}

/// Relies on `chrono::Utc::now` and `DateTime::timestamp`: the current
/// wall-clock time in Unix seconds.  Nothing is assumed of the value.
#[verifier::external_body]
fn now_unix_seconds() -> (r: i64) {
    chrono::Utc::now().timestamp()
}

impl TodoItem {
    /// A new, not yet completed task with the given text, a fresh id and
    /// the current time.
    pub fn new(text: String) -> (r: Self)
        ensures
            r.text == text,
            !r.completed,
            r.id@.len() == 36,
    {
        TodoItem {
            id: fresh_task_id(),
            text,
            completed: false,
            created_at: now_unix_seconds(),
        }
    }

    /// Flag the task as done.
    pub fn mark_completed(&mut self)
        ensures
            final(self).completed,
            final(self).id == old(self).id,
            final(self).text == old(self).text,
            final(self).created_at == old(self).created_at,
    {
        self.completed = true;
    }

    /// Whether the task is done.
    pub fn is_completed(&self) -> (r: bool)
        ensures
            r == self.completed,
    {
        self.completed
    }
}

impl Clone for TodoItem {
    fn clone(&self) -> (r: Self)
        ensures
            r == *self,
    {
        TodoItem {
            id: self.id.clone(),
            text: self.text.clone(),
            completed: self.completed,
            created_at: self.created_at,
        }
    }
}

} // verus!
