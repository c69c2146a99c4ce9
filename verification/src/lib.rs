//! A verified task tracker with recurring day-of-month reminders.
//!
//! The crate models a per-user todo list, per-user reminder windows for
//! meter-reading submissions, the conversational state that disambiguates
//! free-text input, and the scheduling rule that decides which users must
//! be notified on a given day.  Two storage backends — a whole-document
//! store and a row-oriented store — are implemented against the same
//! specification, which makes their observable equivalence a theorem.

pub mod config;
pub mod conversation;
pub mod parser;
pub mod reminder;
pub mod scheduler;
pub mod storage;
pub mod text;
pub mod todo;
pub mod validation;
