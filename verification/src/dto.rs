//! The request and response shapes exchanged with the transport layer.
//! A field that the caller may omit is an `Option`, so an omitted field is
//! distinct from an explicit `false` or an explicit title.

use vstd::prelude::*;

verus! {

/// Request shape for creating a todo. An omitted `completed` arrives as
/// `false`.
#[derive(Debug, Clone, PartialEq, Eq)]
pub struct CreateTodoDto {
    pub title: String,
    pub completed: bool,
}

/// Request shape for a partial update: only the fields that are present are
/// applied.
#[derive(Debug, Clone, PartialEq, Eq)]
pub struct UpdateTodoDto {
    pub title: Option<String>,
    pub completed: Option<bool>,
}

/// Response shape: the persisted entity with its id.
#[derive(Debug, Clone, PartialEq, Eq)]
pub struct TodoResponseDto {
    pub id: i32,
    pub title: String,
    pub completed: bool,
}

} // verus!
