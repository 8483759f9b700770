//! A small todo-list domain library.
//!
//! The pieces, bottom up: a verified white-space trim over character
//! sequences (`text`), decimal rendering of numeric native keys (`keys`),
//! the hash that derives a synthetic integer id from a native key string
//! (`idhash`), the validated `Todo` entity (`entity`), the request and
//! response shapes (`dto`), an in-memory repository that keeps rows under
//! string native keys and presents them under hashed integer ids
//! (`repository`), and the application service over it (`service`).
//! `laws` states and proves the properties that relate several operations,
//! such as a saved row being found again under its returned id.

pub mod dto;
pub mod entity;
pub mod idhash;
pub mod keys;
pub mod laws;
pub mod repository;
pub mod service;
pub mod text;

pub use dto::{CreateTodoDto, TodoResponseDto, UpdateTodoDto};
pub use entity::{Todo, TodoError};
pub use repository::{TodoRepository, TodoRepositoryImpl};
pub use service::TodoService;
