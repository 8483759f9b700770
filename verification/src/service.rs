//! The application service: translates request shapes into entity
//! operations and repository calls. It holds no state beyond the
//! repository and adds no rules beyond what the entity enforces; absence
//! becomes `NotFound` here, after an existence check.

use vstd::prelude::*;
use crate::dto::{CreateTodoDto, TodoResponseDto, UpdateTodoDto};
use crate::entity::{Todo, TodoError, TodoView};
use crate::repository::{
    counter_exhausted, fresh_id_taken, rebuild_mapping, saved_record, sids_distinct, spec_delete,
    spec_find, spec_save, spec_update, todo_of_record, wf, RepoView, TodoRepository,
};
use crate::text::{all_space, trim_seq};

verus! {

/// The response shape carries exactly this entity.
pub open spec fn dto_matches(d: TodoResponseDto, v: TodoView) -> bool {
    v.id == Some(d.id) && d.title@ == v.title && d.completed == v.completed
}

/// The application service over a repository.
pub struct TodoService<R: TodoRepository> {
    repository: R,
}

impl<R: TodoRepository> View for TodoService<R> {
    type V = RepoView;

    closed spec fn view(&self) -> RepoView {
        self.repository@
    }
}

impl<R: TodoRepository> TodoService<R> {
    /// A service over the given repository.
    pub fn new(repository: R) -> (r: TodoService<R>)
        ensures
            r@ == repository@,
    {
        TodoService { repository }
    }

    /// The persisted entity as a response shape.
    fn to_response_dto(todo: &Todo) -> (r: TodoResponseDto)
        requires
            todo@.id is Some,
        ensures
            dto_matches(r, todo@),
    {
        let id = todo.id().unwrap();
        let title = String::from_str(todo.title());
        let completed = todo.is_completed();
        TodoResponseDto { id, title, completed }
    }

    /// List every todo as a response shape, in store order. A pair of rows
    /// hashing to the same synthetic id is surfaced as the storage fault,
    /// with nothing changed.
    pub fn get_all_todos(&mut self) -> (r: Result<Vec<TodoResponseDto>, TodoError>)
        requires
            wf(old(self)@),
        ensures
            wf(final(self)@),
            final(self)@.records == old(self)@.records,
            final(self)@.next_key == old(self)@.next_key,
            match r {
                Ok(v) => sids_distinct(old(self)@.records) && final(self)@.mapping
                    == rebuild_mapping(old(self)@.records) && v@.len()
                    == old(self)@.records.len() && (forall|i: int|
                    0 <= i < v@.len() ==> dto_matches(
                        #[trigger] v@[i],
                        todo_of_record(old(self)@.records[i]),
                    )),
                Err(e) => !sids_distinct(old(self)@.records) && e == TodoError::Storage
                    && final(self)@ == old(self)@,
            },
    {
        match self.repository.find_all() {
            Ok(todos) => {
                let mut out: Vec<TodoResponseDto> = Vec::new();
                let n = todos.len();
                let mut i: usize = 0;
                while i < n
                    invariant
                        0 <= i <= n,
                        n == todos@.len(),
                        n == old(self)@.records.len(),
                        forall|k: int|
                            0 <= k < n ==> (#[trigger] todos@[k])@ == todo_of_record(
                                old(self)@.records[k],
                            ),
                        out@.len() == i,
                        forall|k: int|
                            0 <= k < i ==> dto_matches(
                                #[trigger] out@[k],
                                todo_of_record(old(self)@.records[k]),
                            ),
                    decreases n - i,
                {
                    out.push(Self::to_response_dto(&todos[i]));
                    i = i + 1;
                }
                Ok(out)
            },
            Err(e) => Err(e),
        }
    }

    /// Fetch one todo by id; absence is `NotFound`.
    pub fn get_todo_by_id(&self, id: i32) -> (r: Result<TodoResponseDto, TodoError>)
        requires
            wf(self@),
        ensures
            match (r, spec_find(self@, id)) {
                (Ok(d), Some(v)) => dto_matches(d, v),
                (Err(e), None) => e == TodoError::NotFound,
                _ => false,
            },
    {
        match self.repository.find_by_id(id) {
            Ok(Some(t)) => Ok(Self::to_response_dto(&t)),
            Ok(None) => Err(TodoError::NotFound),
            Err(e) => Err(e),
        }
    }

    /// Create a todo: validate and trim the title, apply the completion
    /// flag, persist, and answer with the saved entity under its fresh id.
    /// A rejected title is the validation error; a fresh key whose hashed
    /// id is already mapped, or an exhausted key counter, is the storage
    /// fault. Either failure leaves the state unchanged.
    pub fn create_todo(&mut self, dto: CreateTodoDto) -> (r: Result<TodoResponseDto, TodoError>)
        requires
            wf(old(self)@),
        ensures
            wf(final(self)@),
            match r {
                Ok(d) => {
                    &&& !all_space(dto.title@)
                    &&& !counter_exhausted(old(self)@)
                    &&& !fresh_id_taken(old(self)@)
                    &&& final(self)@ == spec_save(
                        old(self)@,
                        trim_seq(dto.title@),
                        dto.completed,
                    )
                    &&& dto_matches(
                        d,
                        todo_of_record(
                            saved_record(old(self)@, trim_seq(dto.title@), dto.completed),
                        ),
                    )
                },
                Err(e) => final(self)@ == old(self)@ && ((e == TodoError::Validation && all_space(
                    dto.title@,
                )) || (e == TodoError::Storage && !all_space(dto.title@) && (counter_exhausted(
                    old(self)@,
                ) || fresh_id_taken(old(self)@)))),
            },
    {
        let mut todo = match Todo::new(dto.title) {
            Ok(t) => t,
            Err(e) => {
                return Err(e);
            },
        };
        if dto.completed {
            todo.complete();
        }
        match self.repository.save(&todo) {
            Ok(saved) => Ok(Self::to_response_dto(&saved)),
            Err(e) => Err(e),
        }
    }

    /// Partial update: fetch the todo, apply only the fields the request
    /// carries, persist. Absence is `NotFound`; a present title that is
    /// empty or all white space is refused with nothing changed.
    pub fn update_todo(&mut self, id: i32, dto: UpdateTodoDto) -> (r: Result<
        TodoResponseDto,
        TodoError,
    >)
        requires
            wf(old(self)@),
        ensures
            wf(final(self)@),
            match spec_find(old(self)@, id) {
                None => final(self)@ == old(self)@ && (r matches Err(e) && e
                    == TodoError::NotFound),
                Some(t) => {
                    if dto.title matches Some(s) && all_space(s@) {
                        final(self)@ == old(self)@ && (r matches Err(e) && e
                            == TodoError::Validation)
                    } else {
                        let new_title = match dto.title {
                            Some(s) => trim_seq(s@),
                            None => t.title,
                        };
                        let new_completed = match dto.completed {
                            Some(c) => c,
                            None => t.completed,
                        };
                        &&& final(self)@ == spec_update(old(self)@, id, new_title, new_completed)
                        &&& (r matches Ok(d) && dto_matches(
                            d,
                            TodoView { id: Some(id), title: new_title, completed: new_completed },
                        ))
                    }
                },
            },
    {
        let mut todo = match self.repository.find_by_id(id) {
            Ok(Some(t)) => t,
            Ok(None) => {
                return Err(TodoError::NotFound);
            },
            Err(e) => {
                return Err(e);
            },
        };
        match dto.title {
            Some(title) => {
                match todo.change_title(title) {
                    Ok(()) => (),
                    Err(e) => {
                        return Err(e);
                    },
                }
            },
            None => (),
        }
        match dto.completed {
            Some(true) => todo.complete(),
            Some(false) => todo.uncomplete(),
            None => (),
        }
        match self.repository.update(&todo) {
            Ok(updated) => Ok(Self::to_response_dto(&updated)),
            Err(e) => Err(e),
        }
    }

    /// Delete by id: confirm presence first, so absence is `NotFound`, then
    /// delegate the removal.
    pub fn delete_todo(&mut self, id: i32) -> (r: Result<(), TodoError>)
        requires
            wf(old(self)@),
        ensures
            wf(final(self)@),
            match spec_find(old(self)@, id) {
                None => final(self)@ == old(self)@ && (r matches Err(e) && e
                    == TodoError::NotFound),
                Some(_) => final(self)@ == spec_delete(old(self)@, id) && r matches Ok(_),
            },
    {
        match self.repository.find_by_id(id) {
            Ok(Some(_)) => (),
            Ok(None) => {
                return Err(TodoError::NotFound);
            },
            Err(e) => {
                return Err(e);
            },
        }
        self.repository.delete(id)
    }
}

} // verus!
