//! A personal task-list manager: a store of todo records supporting
//! creation, mutation, grouped display and multi-list management.
//!
//! The store itself, the natural-language due-date parser, the grouping
//! engine and the path logic of the list directory are verified; terminal
//! output, JSON persistence and the file system sit outside the library.

use vstd::prelude::*;

pub mod list;
pub mod modify;
pub mod notes;
pub mod serde_date;
pub mod serde_date_time;
pub mod text;
pub mod todo_files;

pub use crate::list::GroupOption;
pub use crate::serde_date::SerdeDate;
pub use crate::serde_date_time::SerdeDateTime;

use crate::text::{dec_digits, u64_to_string};

verus! {

/// The errors that id- and note-based operations, and the list
/// directory, surface to the command boundary.
#[derive(Debug, PartialEq, Eq, Structural)]
pub enum AppError {
    IdNotFoundError(u64),
    NoteNotFoundError(u64, usize),
    NoConfigurationDirectory,
}

impl AppError {
    /// What the one-line diagnostic of this error says.
    pub open spec fn message_spec(self) -> Seq<char> {
        match self {
            AppError::IdNotFoundError(i) => "ID not found: "@ + dec_digits(i as nat),
            AppError::NoteNotFoundError(j, i) => "Note number "@ + dec_digits(i as nat)
                + " not found on todo number "@ + dec_digits(j as nat) + "!"@,
            AppError::NoConfigurationDirectory => "The configuration directory has not been set up yet!"@,
        }
    }

    /// The one-line diagnostic for this error.
    pub fn message(&self) -> (r: String)
        ensures
            r@ == self.message_spec(),
    {
        match self {
            AppError::IdNotFoundError(i) => {
                let mut r = String::from_str("ID not found: ");
                let num = u64_to_string(*i);
                r.append(num.as_str());
                r
            },
            AppError::NoteNotFoundError(j, i) => {
                let mut r = String::from_str("Note number ");
                let num = u64_to_string(*i as u64);
                r.append(num.as_str());
                r.append(" not found on todo number ");
                let num2 = u64_to_string(*j);
                r.append(num2.as_str());
                r.append("!");
                r
            },
            AppError::NoConfigurationDirectory => String::from_str(
                "The configuration directory has not been set up yet!",
            ),
        }
    }
}

/// One task record. Its identity is `id`, unique among the todos a
/// list currently holds; `uuid` is assigned once and never reused.
/// `projects` and `contexts` are derived from the subject when the
/// todo is created and not re-derived on edit.
#[derive(Debug, Clone, PartialEq, Eq)]
pub struct Todo {
    pub id: u64,
    pub uuid: String,
    pub subject: String,
    pub projects: Vec<String>,
    pub contexts: Vec<String>,
    pub due: SerdeDate,
    pub completed: bool,
    pub completed_date: SerdeDateTime,
    pub status: String,
    pub archived: bool,
    pub is_priority: bool,
    pub notes: Option<Vec<String>>,
    pub recur: String,
    pub recur_until: String,
    pub prev_recur_todo_uuid: String,
}

} // verus!
