//! The `Todo` entity: a record with an optional integer id, a title that is
//! trimmed on every set and never empty or all white space on a validated
//! path, and a completion flag.

use vstd::prelude::*;
use crate::text::{all_space, lemma_trim_empty_iff_all_space, trim, trim_seq};

verus! {

/// The kinds of failure the library reports: a rejected title, a missing
/// record for a given id, and a storage-level fault such as a mapping miss.
#[derive(Debug, Clone, Copy, PartialEq, Eq, Structural)]
pub enum TodoError {
    Validation,
    NotFound,
    Storage,
}

/// Mathematical image of a `Todo`.
#[verifier::ext_equal]
pub struct TodoView {
    pub id: Option<i32>,
    pub title: Seq<char>,
    pub completed: bool,
}

/// The entity after flipping its completion flag.
pub open spec fn toggled(v: TodoView) -> TodoView {
    TodoView { id: v.id, title: v.title, completed: !v.completed }
}

/// Flipping the completion flag twice restores the original entity.
pub proof fn lemma_toggle_involutive(v: TodoView)
    ensures
        toggled(toggled(v)) == v,
{
}

/// Rebuilding an entity from a stored triple and reading it back yields
/// exactly that triple: `reconstruct` ensures its result has this view, and
/// the accessors `id`, `title` and `is_completed` read these fields.
pub proof fn lemma_reconstruct_round_trip(id: i32, title: Seq<char>, completed: bool)
    ensures
        (TodoView { id: Some(id), title, completed }).id == Some(id),
        (TodoView { id: Some(id), title, completed }).title == title,
        (TodoView { id: Some(id), title, completed }).completed == completed,
{
}

/// The domain entity.
#[derive(Debug, Clone, PartialEq, Eq)]
pub struct Todo {
    id: Option<i32>,
    title: String,
    completed: bool,
}

impl View for Todo {
    type V = TodoView;

    closed spec fn view(&self) -> TodoView {
        TodoView { id: self.id, title: self.title@, completed: self.completed }
    }
}

impl Todo {
    /// Validated factory for a not-yet-persisted entity: trims the title,
    /// and fails on a title that is empty or all white space.
    pub fn new(title: String) -> (r: Result<Todo, TodoError>)
        ensures
            match r {
                Ok(t) => !all_space(title@) && t@ == (TodoView {
                    id: None,
                    title: trim_seq(title@),
                    completed: false,
                }),
                Err(e) => all_space(title@) && e == TodoError::Validation,
            },
    {
        let trimmed = trim(title.as_str());
        proof {
            lemma_trim_empty_iff_all_space(title@);
        }
        if trimmed.as_str().is_empty() {
            Err(TodoError::Validation)
        } else {
            Ok(Todo { id: None, title: trimmed, completed: false })
        }
    }

    /// Rebuild an already-persisted entity without validation; used only
    /// when rehydrating from storage.
    pub fn reconstruct(id: i32, title: String, completed: bool) -> (r: Todo)
        ensures
            r@ == (TodoView { id: Some(id), title: title@, completed }),
    {
        Todo { id: Some(id), title, completed }
    }

    /// The id, present once the entity has been persisted.
    pub fn id(&self) -> (r: Option<i32>)
        ensures
            r == self@.id,
    {
        self.id
    }

    /// The title.
    pub fn title(&self) -> (r: &str)
        ensures
            r@ == self@.title,
    {
        self.title.as_str()
    }

    /// The completion flag.
    pub fn is_completed(&self) -> (r: bool)
        ensures
            r == self@.completed,
    {
        self.completed
    }

    /// Replace the title under the same validation as `new`: the new title
    /// is trimmed, and a title that is empty or all white space is refused
    /// with the entity left unchanged.
    pub fn change_title(&mut self, new_title: String) -> (r: Result<(), TodoError>)
        ensures
            match r {
                Ok(()) => !all_space(new_title@) && final(self)@ == (TodoView {
                    id: old(self)@.id,
                    title: trim_seq(new_title@),
                    completed: old(self)@.completed,
                }),
                Err(e) => all_space(new_title@) && e == TodoError::Validation && final(self)@
                    == old(self)@,
            },
    {
        let trimmed = trim(new_title.as_str());
        proof {
            lemma_trim_empty_iff_all_space(new_title@);
        }
        if trimmed.as_str().is_empty() {
            Err(TodoError::Validation)
        } else {
            self.title = trimmed;
            Ok(())
        }
    }

    /// Mark the entity complete.
    pub fn complete(&mut self)
        ensures
            final(self)@ == (TodoView {
                id: old(self)@.id,
                title: old(self)@.title,
                completed: true,
            }),
    {
        self.completed = true;
    }

    /// Mark the entity not complete.
    pub fn uncomplete(&mut self)
        ensures
            final(self)@ == (TodoView {
                id: old(self)@.id,
                title: old(self)@.title,
                completed: false,
            }),
    {
        self.completed = false;
    }

    /// Flip the completion flag.
    pub fn toggle_completion(&mut self)
        ensures
            final(self)@ == toggled(old(self)@),
    {
        self.completed = !self.completed;
    }
}

} // verus!
