//! Todos without labels: the entity, its payloads, the repository contract
//! and an in-memory store.

use crate::decimal::{decimal, push_decimal};
use crate::handlers::{
    length_violations, note_length, report, violation_views, Validate, Violation, ViolationView,
};
use crate::repositories::listing::{
    descending, descending_ids, lemma_descending_lists_all, lemma_descending_starts_late,
    lists_exactly, Keyed,
};
use std::collections::HashMap;
use vstd::prelude::*;

pub mod labels;
pub mod listing;
pub mod shared;
pub mod todo;

verus! {

broadcast use vstd::std_specs::hash::group_hash_axioms;

/// Why a repository operation failed.
#[derive(Debug)]
pub enum RepositoryError {
    /// The backing store failed; the text is what it reported.
    Unexpected(String),
    /// No entity has this id.
    NotFound(i32),
    /// An entity with the same unique attribute exists already, under this id.
    Duplicate(i32),
}

/// A repository error as plain mathematical data.
pub enum RepositoryErrorView {
    Unexpected(Seq<char>),
    NotFound(int),
    Duplicate(int),
}

impl View for RepositoryError {
    type V = RepositoryErrorView;

    open spec fn view(&self) -> RepositoryErrorView {
        match self {
            RepositoryError::Unexpected(message) => RepositoryErrorView::Unexpected(message@),
            RepositoryError::NotFound(id) => RepositoryErrorView::NotFound(*id as int),
            RepositoryError::Duplicate(id) => RepositoryErrorView::Duplicate(*id as int),
        }
    }
}

/// What the database driver reported when a statement failed: whether it
/// found no row where one was expected, and its message.
#[derive(Debug, PartialEq, Eq)]
pub struct DriverError {
    pub row_not_found: bool,
    pub message: String,
}

impl RepositoryErrorView {
    /// The error in words.
    pub open spec fn message(self) -> Seq<char> {
        match self {
            RepositoryErrorView::Unexpected(message) => "Unexpected Error: ["@ + message + "]"@,
            RepositoryErrorView::NotFound(id) => "NotFound, id is "@ + decimal(id),
            RepositoryErrorView::Duplicate(id) => "Duplicate data, id is "@ + decimal(id),
        }
    }
}

impl RepositoryError {
    /// The error in words.
    pub fn message(&self) -> (text: String)
        ensures
            text@ == self@.message(),
    {
        match self {
            RepositoryError::Unexpected(message) => {
                let mut text = "Unexpected Error: [".to_owned();
                text.append(message.as_str());
                text.append("]");
                text
            },
            RepositoryError::NotFound(id) => {
                let mut text = "NotFound, id is ".to_owned();
                push_decimal(&mut text, *id);
                text
            },
            RepositoryError::Duplicate(id) => {
                let mut text = "Duplicate data, id is ".to_owned();
                push_decimal(&mut text, *id);
                text
            },
        }
    }

    /// The error for a statement that was to find the row with this id: a
    /// missing row is `NotFound`, anything else `Unexpected` with the
    /// driver's message.
    pub fn from_driver(error: DriverError, id: i32) -> (e: RepositoryError)
        ensures
            e@ == if error.row_not_found {
                RepositoryErrorView::NotFound(id as int)
            } else {
                RepositoryErrorView::Unexpected(error.message@)
            },
    {
        if error.row_not_found {
            RepositoryError::NotFound(id)
        } else {
            RepositoryError::Unexpected(error.message)
        }
    }

    /// The repository's error inside an error that was wrapped on its way:
    /// the one that was found in it, or `Unexpected` with the message of the
    /// wrapped error if none was.
    pub fn or_unexpected(found: Option<RepositoryError>, message: String) -> (e: RepositoryError)
        ensures
            e@ == match found {
                Some(error) => error@,
                None => RepositoryErrorView::Unexpected(message@),
            },
    {
        match found {
            Some(error) => error,
            None => RepositoryError::Unexpected(message),
        }
    }

    /// The error for a statement that looked for no particular row:
    /// `Unexpected` with the driver's message.
    pub fn unexpected(error: DriverError) -> (e: RepositoryError)
        ensures
            e@ == RepositoryErrorView::Unexpected(error.message@),
    {
        RepositoryError::Unexpected(error.message)
    }
}

/// What the store answers after a statement that was to return the row with
/// this id.
pub fn row_for<T>(id: i32, outcome: Result<T, DriverError>) -> (r: Result<T, RepositoryError>)
    ensures
        match outcome {
            Ok(row) => r == Ok::<T, RepositoryError>(row),
            Err(error) => r matches Err(e) && e@ == if error.row_not_found {
                RepositoryErrorView::NotFound(id as int)
            } else {
                RepositoryErrorView::Unexpected(error.message@)
            },
        },
{
    match outcome {
        Ok(row) => Ok(row),
        Err(error) => Err(RepositoryError::from_driver(error, id)),
    }
}

/// What the store answers after a statement that looked for no particular
/// row.
pub fn rows_or_unexpected<T>(outcome: Result<T, DriverError>) -> (r: Result<T, RepositoryError>)
    ensures
        match outcome {
            Ok(rows) => r == Ok::<T, RepositoryError>(rows),
            Err(error) => r matches Err(e) && e@ == RepositoryErrorView::Unexpected(
                error.message@,
            ),
        },
{
    match outcome {
        Ok(rows) => Ok(rows),
        Err(error) => Err(RepositoryError::unexpected(error)),
    }
}

/// What the store answers after the statement that deletes the row with this
/// id, given the number of rows that it removed: a statement that removed
/// none found nothing under the id.
pub fn row_removed(id: i32, outcome: Result<u64, DriverError>) -> (r: Result<(), RepositoryError>)
    ensures
        unit_result_view(r) == match outcome {
            Ok(removed) => if removed == 0 {
                Err(RepositoryErrorView::NotFound(id as int))
            } else {
                Ok(())
            },
            Err(error) => Err(
                if error.row_not_found {
                    RepositoryErrorView::NotFound(id as int)
                } else {
                    RepositoryErrorView::Unexpected(error.message@)
                },
            ),
        },
{
    match outcome {
        Ok(removed) => if removed == 0 {
            Err(RepositoryError::NotFound(id))
        } else {
            Ok(())
        },
        Err(error) => Err(RepositoryError::from_driver(error, id)),
    }
}

/// A todo as it is stored and handed out.
#[derive(Debug, PartialEq, Eq)]
pub struct Todo {
    pub id: i32,
    pub text: String,
    pub completed: bool,
}

/// A todo as plain mathematical data.
pub struct TodoView {
    pub id: int,
    pub text: Seq<char>,
    pub completed: bool,
}

impl View for Todo {
    type V = TodoView;

    open spec fn view(&self) -> TodoView {
        TodoView { id: self.id as int, text: self.text@, completed: self.completed }
    }
}

impl Keyed for TodoView {
    open spec fn key(self) -> int {
        self.id
    }
}

impl Clone for Todo {
    fn clone(&self) -> (copy: Self)
        ensures
            copy == *self,
    {
        Todo { id: self.id, text: self.text.clone(), completed: self.completed }
    }
}

impl Todo {
    /// A todo that is not completed yet.
    pub fn new(id: i32, text: String) -> (todo: Self)
        ensures
            todo.id == id,
            todo.text == text,
            !todo.completed,
    {
        Todo { id, text, completed: false }
    }
}

/// What a client sends to create a todo.
#[derive(Debug, PartialEq, Eq)]
pub struct CreateTodo {
    pub text: String,
}

impl CreateTodo {
    pub fn new(text: String) -> (payload: Self)
        ensures
            payload.text == text,
    {
        CreateTodo { text }
    }
}

impl Validate for CreateTodo {
    /// The text must have between one and a hundred characters.
    open spec fn violations(&self) -> Seq<ViolationView> {
        length_violations("text"@, self.text@)
    }

    fn validate(&self) -> (r: Result<(), Vec<Violation>>) {
        let mut found: Vec<Violation> = Vec::new();
        assert(violation_views(found@) =~= Seq::empty());
        note_length(&mut found, "text", &self.text);
        assert(violation_views(found@) =~= length_violations("text"@, self.text@));
        report(found)
    }
}

impl Clone for CreateTodo {
    fn clone(&self) -> (copy: Self)
        ensures
            copy == *self,
    {
        CreateTodo { text: self.text.clone() }
    }
}

/// What a client sends to change a todo. A field that is absent leaves the
/// stored field as it is.
#[derive(Debug, PartialEq, Eq)]
pub struct UpdateTodo {
    pub text: Option<String>,
    pub completed: Option<bool>,
}

impl UpdateTodo {
    /// The text that the payload carries, as plain data.
    pub open spec fn text_view(&self) -> Option<Seq<char>> {
        match self.text {
            Some(text) => Some(text@),
            None => None,
        }
    }

    /// The todo that results from laying this payload over `old`.
    pub open spec fn merged(&self, old: TodoView) -> TodoView {
        merge(old, self.text_view(), self.completed)
    }

    /// Lays the payload over `old`: each field that is present replaces the
    /// stored one, the id stays.
    pub fn apply(self, old: &Todo) -> (todo: Todo)
        ensures
            todo@ == self.merged(old@),
    {
        let text = match self.text {
            Some(text) => text,
            None => old.text.clone(),
        };
        let completed = match self.completed {
            Some(completed) => completed,
            None => old.completed,
        };
        Todo { id: old.id, text, completed }
    }
}

impl Validate for UpdateTodo {
    /// The text, if there is one, must have between one and a hundred
    /// characters.
    open spec fn violations(&self) -> Seq<ViolationView> {
        match self.text {
            Some(text) => length_violations("text"@, text@),
            None => Seq::empty(),
        }
    }

    fn validate(&self) -> (r: Result<(), Vec<Violation>>) {
        let mut found: Vec<Violation> = Vec::new();
        assert(violation_views(found@) =~= Seq::empty());
        match &self.text {
            Some(text) => {
                note_length(&mut found, "text", text);
                assert(violation_views(found@) =~= length_violations("text"@, text@));
            },
            None => {},
        }
        report(found)
    }
}

impl Clone for UpdateTodo {
    fn clone(&self) -> (copy: Self)
        ensures
            copy == *self,
    {
        let text = match &self.text {
            Some(text) => Some(text.clone()),
            None => None,
        };
        UpdateTodo { text, completed: self.completed }
    }
}

/// `old` with each field replaced for which a new value is given.
pub open spec fn merge(old: TodoView, text: Option<Seq<char>>, completed: Option<bool>) -> TodoView {
    TodoView {
        id: old.id,
        text: match text {
            Some(text) => text,
            None => old.text,
        },
        completed: match completed {
            Some(completed) => completed,
            None => old.completed,
        },
    }
}

/// The result of a todo operation as plain data.
pub open spec fn todo_result_view(r: Result<Todo, RepositoryError>) -> Result<
    TodoView,
    RepositoryErrorView,
> {
    match r {
        Ok(todo) => Ok(todo@),
        Err(e) => Err(e@),
    }
}

/// The result of an operation that hands nothing out, as plain data.
pub open spec fn unit_result_view(r: Result<(), RepositoryError>) -> Result<
    (),
    RepositoryErrorView,
> {
    match r {
        Ok(_) => Ok(()),
        Err(e) => Err(e@),
    }
}

/// The todos of `list` as plain data, in the same order.
pub open spec fn todo_views(list: Seq<Todo>) -> Seq<TodoView> {
    list.map_values(|todo: Todo| todo@)
}

/// What every todo repository offers, whatever stores the todos.
///
/// A store may fail for reasons of its own (a lost connection); it then
/// answers `Unexpected` and has changed nothing.
pub trait TodoRepository: Sized {
    /// The stored todos, by id.
    spec fn todos(&self) -> Map<int, TodoView>;

    /// The store has an id left for one more todo.
    spec fn has_room(&self) -> bool;

    /// The store never fails for a reason of its own: what it answers
    /// follows from what it holds.
    spec fn dependable(&self) -> bool;

    /// Stores a new, uncompleted todo under an id that no stored todo has.
    fn create(&mut self, payload: CreateTodo) -> (r: Result<Todo, RepositoryError>)
        ensures
            final(self).dependable() == old(self).dependable(),
            old(self).has_room() ==> r is Ok,
            match r {
                Ok(todo) => {
                    &&& !old(self).todos().contains_key(todo.id as int)
                    &&& todo@ == (TodoView {
                        id: todo.id as int,
                        text: payload.text@,
                        completed: false,
                    })
                    &&& final(self).todos() == old(self).todos().insert(todo.id as int, todo@)
                },
                Err(e) => e is Unexpected && final(self).todos() == old(self).todos(),
            },
    ;

    /// The todo stored under `id`.
    fn find(&self, id: i32) -> (r: Result<Todo, RepositoryError>)
        ensures
            self.dependable() ==> !(r matches Err(RepositoryError::Unexpected(_))),
            match r {
                Ok(todo) => self.todos().contains_key(id as int) && todo@ == self.todos()[id as int],
                Err(RepositoryError::NotFound(missing)) => missing == id
                    && !self.todos().contains_key(id as int),
                Err(RepositoryError::Unexpected(_)) => true,
                Err(RepositoryError::Duplicate(_)) => false,
            },
    ;

    /// Every stored todo, once.
    fn all(&self) -> (r: Result<Vec<Todo>, RepositoryError>)
        ensures
            self.dependable() ==> r is Ok,
            match r {
                Ok(list) => lists_exactly(todo_views(list@), self.todos()),
                Err(e) => e is Unexpected,
            },
    ;

    /// Lays `payload` over the todo stored under `id`.
    fn update(&mut self, id: i32, payload: UpdateTodo) -> (r: Result<Todo, RepositoryError>)
        ensures
            final(self).has_room() == old(self).has_room(),
            final(self).dependable() == old(self).dependable(),
            old(self).dependable() ==> !(r matches Err(RepositoryError::Unexpected(_))),
            match r {
                Ok(todo) => {
                    &&& old(self).todos().contains_key(id as int)
                    &&& todo@ == payload.merged(old(self).todos()[id as int])
                    &&& final(self).todos() == old(self).todos().insert(id as int, todo@)
                },
                Err(RepositoryError::NotFound(missing)) => {
                    &&& missing == id
                    &&& !old(self).todos().contains_key(id as int)
                    &&& final(self).todos() == old(self).todos()
                },
                Err(RepositoryError::Unexpected(_)) => final(self).todos() == old(self).todos(),
                Err(RepositoryError::Duplicate(_)) => false,
            },
    ;

    /// Removes the todo stored under `id`.
    fn delete(&mut self, id: i32) -> (r: Result<(), RepositoryError>)
        ensures
            final(self).has_room() == old(self).has_room(),
            final(self).dependable() == old(self).dependable(),
            old(self).dependable() ==> !(r matches Err(RepositoryError::Unexpected(_))),
            match r {
                Ok(_) => {
                    &&& old(self).todos().contains_key(id as int)
                    &&& final(self).todos() == old(self).todos().remove(id as int)
                },
                Err(RepositoryError::NotFound(missing)) => {
                    &&& missing == id
                    &&& !old(self).todos().contains_key(id as int)
                    &&& final(self).todos() == old(self).todos()
                },
                Err(RepositoryError::Unexpected(_)) => final(self).todos() == old(self).todos(),
                Err(RepositoryError::Duplicate(_)) => false,
            },
    ;
}

/// An in-memory todo store as plain data: the stored todos, and the id that
/// the next new todo gets.
///
/// Ids come from a counter that only grows. An id is therefore never handed
/// out twice, not even after the todo that had it was deleted. (Taking the
/// number of stored todos plus one instead would hand out an id that is still
/// in use as soon as an earlier todo has been deleted.)
pub struct TodoTable {
    pub rows: Map<int, TodoView>,
    pub next_id: int,
}

impl TodoTable {
    /// Every todo is stored under its own id, and all ids handed out so far
    /// lie below the counter.
    pub open spec fn wf(self) -> bool {
        &&& 1 <= self.next_id <= i32::MAX
        &&& forall|id: int| #[trigger]
            self.rows.contains_key(id) ==> 1 <= id < self.next_id && self.rows[id].id == id
    }

    pub open spec fn empty() -> Self {
        TodoTable { rows: Map::empty(), next_id: 1 }
    }

    /// No id is left to hand out.
    pub open spec fn exhausted(self) -> bool {
        self.next_id >= i32::MAX
    }

    /// The todo that `create` makes of `text`.
    pub open spec fn fresh(self, text: Seq<char>) -> TodoView {
        TodoView { id: self.next_id, text, completed: false }
    }

    /// What `create` answers.
    pub open spec fn created(self, text: Seq<char>) -> Result<TodoView, RepositoryErrorView> {
        if self.exhausted() {
            Err(RepositoryErrorView::Unexpected("todo ids are used up"@))
        } else {
            Ok(self.fresh(text))
        }
    }

    /// The table after `create`.
    pub open spec fn create(self, text: Seq<char>) -> Self {
        if self.exhausted() {
            self
        } else {
            TodoTable {
                rows: self.rows.insert(self.next_id, self.fresh(text)),
                next_id: self.next_id + 1,
            }
        }
    }

    /// What `find` answers.
    pub open spec fn found(self, id: int) -> Result<TodoView, RepositoryErrorView> {
        if self.rows.contains_key(id) {
            Ok(self.rows[id])
        } else {
            Err(RepositoryErrorView::NotFound(id))
        }
    }

    /// What `update` answers.
    pub open spec fn updated(
        self,
        id: int,
        text: Option<Seq<char>>,
        completed: Option<bool>,
    ) -> Result<TodoView, RepositoryErrorView> {
        if self.rows.contains_key(id) {
            Ok(merge(self.rows[id], text, completed))
        } else {
            Err(RepositoryErrorView::NotFound(id))
        }
    }

    /// The table after `update`.
    pub open spec fn update(self, id: int, text: Option<Seq<char>>, completed: Option<bool>) -> Self {
        if self.rows.contains_key(id) {
            TodoTable { rows: self.rows.insert(id, merge(self.rows[id], text, completed)), ..self }
        } else {
            self
        }
    }

    /// What `delete` answers.
    pub open spec fn deleted(self, id: int) -> Result<(), RepositoryErrorView> {
        if self.rows.contains_key(id) {
            Ok(())
        } else {
            Err(RepositoryErrorView::NotFound(id))
        }
    }

    /// The table after `delete`.
    pub open spec fn delete(self, id: int) -> Self {
        TodoTable { rows: self.rows.remove(id), ..self }
    }

    /// All stored todos, the newest first.
    pub open spec fn listing(self) -> Seq<TodoView> {
        descending(self.rows, 1, self.next_id - 1)
    }

    /// A todo that was created is found under the id it was given, and is
    /// then the very todo that `create` handed out.
    pub proof fn law_create_then_find(self, text: Seq<char>)
        requires
            self.wf(),
            self.created(text) is Ok,
        ensures
            self.create(text).wf(),
            self.create(text).found(self.created(text)->Ok_0.id) == self.created(text),
    {
    }

    /// An update changes the fields that the payload carries and keeps the
    /// others; the todo is then stored as `update` handed it out.
    pub proof fn law_update_keeps_absent_fields(
        self,
        id: int,
        text: Option<Seq<char>>,
        completed: Option<bool>,
    )
        requires
            self.wf(),
            self.found(id) is Ok,
        ensures
            self.update(id, text, completed).wf(),
            self.update(id, text, completed).found(id) == self.updated(id, text, completed),
            ({
                let before = self.found(id)->Ok_0;
                let after = self.updated(id, text, completed)->Ok_0;
                &&& after.id == id
                &&& text is None ==> after.text == before.text
                &&& text matches Some(new_text) ==> after.text == new_text
                &&& completed is None ==> after.completed == before.completed
                &&& completed matches Some(flag) ==> after.completed == flag
            }),
    {
    }

    /// A todo can be deleted once: the first `delete` of a stored todo
    /// succeeds, the second answers `NotFound`, and changes nothing more.
    pub proof fn law_delete_twice(self, id: int)
        requires
            self.wf(),
            self.found(id) is Ok,
        ensures
            self.delete(id).wf(),
            self.deleted(id) is Ok,
            self.delete(id).deleted(id) == Err::<(), RepositoryErrorView>(
                RepositoryErrorView::NotFound(id),
            ),
            self.delete(id).found(id) is Err,
            self.delete(id).delete(id) == self.delete(id),
    {
        assert(self.delete(id).delete(id).rows =~= self.delete(id).rows);
    }

    /// Deleting an id that is not stored changes nothing.
    pub proof fn law_delete_absent(self, id: int)
        requires
            self.wf(),
            self.found(id) is Err,
        ensures
            self.delete(id) == self,
    {
        assert(self.delete(id).rows =~= self.rows);
    }
}

/// A todo store that lives in memory.
pub struct TodoRepositoryForMemory {
    store: HashMap<i32, Todo>,
    first_id: i32,
    next_id: i32,
}

impl View for TodoRepositoryForMemory {
    type V = TodoTable;

    closed spec fn view(&self) -> TodoTable {
        TodoTable {
            rows: Map::new(
                |id: int| i32::MIN <= id <= i32::MAX && self.store@.contains_key(id as i32),
                |id: int| self.store@[id as i32]@,
            ),
            next_id: self.next_id as int,
        }
    }
}

/// Every todo of `store` sits under its own id, which lies between the
/// first id that the store handed out and the counter.
spec fn sound(store: Map<i32, Todo>, first_id: i32, next_id: i32) -> bool {
    &&& 1 <= first_id <= next_id
    &&& forall|id: i32| #[trigger]
        store.contains_key(id) ==> first_id <= id < next_id && store[id].id == id
}

impl TodoRepositoryForMemory {
    #[verifier::type_invariant]
    spec fn inv(self) -> bool {
        sound(self.store@, self.first_id, self.next_id)
    }

    proof fn lemma_wf(self)
        requires
            self.inv(),
        ensures
            self@.wf(),
            1 <= self.first_id <= self.next_id,
            forall|id: int| 1 <= id < self.first_id ==> !self@.rows.contains_key(id),
    {
        assert forall|id: int| 1 <= id < self.first_id implies !self@.rows.contains_key(id) by {
            if self@.rows.contains_key(id) {
                assert(self.store@.contains_key(id as i32));
            }
        }
        assert forall|id: int| #[trigger] self@.rows.contains_key(id) implies 1 <= id
            < self@.next_id && self@.rows[id].id == id by {
            assert(self.store@.contains_key(id as i32));
        }
    }

    /// A store without todos; the first todo gets id 1.
    pub fn new() -> (repository: Self)
        ensures
            repository@ == TodoTable::empty(),
    {
        let repository = TodoRepositoryForMemory {
            store: HashMap::new(),
            first_id: 1,
            next_id: 1,
        };
        assert(repository@.rows =~= Map::empty());
        repository
    }

    /// A store without todos whose first todo gets `first_id`, or 1 if that
    /// is less: a store that goes on where an earlier one has stopped.
    pub fn starting_at(first_id: i32) -> (repository: Self)
        ensures
            repository@ == (TodoTable {
                rows: Map::empty(),
                next_id: if first_id < 1 {
                    1
                } else {
                    first_id as int
                },
            }),
    {
        let next_id = if first_id < 1 {
            1
        } else {
            first_id
        };
        let repository = TodoRepositoryForMemory {
            store: HashMap::new(),
            first_id: next_id,
            next_id,
        };
        assert(repository@.rows =~= Map::empty());
        repository
    }

    /// Stores `todo` under `id`. The map leaves the store while it changes,
    /// so that the store is sound at every step.
    fn put(&mut self, id: i32, todo: Todo)
        requires
            old(self).first_id <= id < old(self).next_id,
            todo.id == id,
        ensures
            final(self)@ == (TodoTable {
                rows: old(self)@.rows.insert(id as int, todo@),
                ..old(self)@
            }),
    {
        proof {
            use_type_invariant(&*self);
        }
        let mut held: HashMap<i32, Todo> = HashMap::new();
        core::mem::swap(&mut self.store, &mut held);
        held.insert(id, todo);
        self.store = held;
        assert(self@.rows =~= old(self)@.rows.insert(id as int, todo@));
    }

    /// Removes what is stored under `id`, and says whether anything was.
    fn take(&mut self, id: i32) -> (found: bool)
        ensures
            found == old(self)@.rows.contains_key(id as int),
            final(self)@ == old(self)@.delete(id as int),
    {
        proof {
            use_type_invariant(&*self);
        }
        let mut held: HashMap<i32, Todo> = HashMap::new();
        core::mem::swap(&mut self.store, &mut held);
        let removed = held.remove(&id);
        self.store = held;
        assert(self@.rows =~= old(self)@.rows.remove(id as int));
        removed.is_some()
    }
}

impl TodoRepository for TodoRepositoryForMemory {
    open spec fn todos(&self) -> Map<int, TodoView> {
        self@.rows
    }

    /// The counter has not reached the last id.
    open spec fn has_room(&self) -> bool {
        !self@.exhausted()
    }

    /// A store in memory has nothing to fail on.
    open spec fn dependable(&self) -> bool {
        true
    }

    /// Fails only when the ids are used up; the new todo gets the counter's
    /// value as its id.
    fn create(&mut self, payload: CreateTodo) -> (r: Result<Todo, RepositoryError>)
        ensures
            old(self)@.wf(),
            final(self)@.wf(),
            final(self).todos() == final(self)@.rows,
            final(self)@ == old(self)@.create(payload.text@),
            todo_result_view(r) == old(self)@.created(payload.text@),
    {
        proof {
            use_type_invariant(&*self);
            self.lemma_wf();
        }
        if self.next_id == i32::MAX {
            return Err(RepositoryError::Unexpected("todo ids are used up".to_owned()));
        }
        let id = self.next_id;
        let todo = Todo { id, text: payload.text, completed: false };
        self.next_id = id + 1;
        self.put(id, todo.clone());
        Ok(todo)
    }

    /// `NotFound` exactly when nothing is stored under `id`.
    fn find(&self, id: i32) -> (r: Result<Todo, RepositoryError>)
        ensures
            self@.wf(),
            self.todos() == self@.rows,
            todo_result_view(r) == self@.found(id as int),
    {
        proof {
            use_type_invariant(self);
        }
        match self.store.get(&id) {
            Some(todo) => Ok(todo.clone()),
            None => Err(RepositoryError::NotFound(id)),
        }
    }

    /// Never fails; the newest todo comes first. Walks all ids that were
    /// handed out so far.
    fn all(&self) -> (r: Result<Vec<Todo>, RepositoryError>)
        ensures
            self@.wf(),
            self.todos() == self@.rows,
            r matches Ok(list) && todo_views(list@) == self@.listing(),
            r matches Ok(list) && descending_ids(todo_views(list@)),
    {
        proof {
            use_type_invariant(self);
        }
        let mut list: Vec<Todo> = Vec::new();
        let mut id: i32 = self.next_id;
        assert(todo_views(list@) =~= descending(self@.rows, id as int, self.next_id - 1));
        while id > self.first_id
            invariant
                self.first_id <= id <= self.next_id,
                self@.wf(),
                todo_views(list@) == descending(self@.rows, id as int, self.next_id - 1),
            decreases id - self.first_id,
        {
            id = id - 1;
            let ghost before = list@;
            match self.store.get(&id) {
                Some(todo) => {
                    list.push(todo.clone());
                    assert(todo_views(list@) =~= todo_views(before).push(todo@));
                },
                None => {},
            }
        }
        proof {
            lemma_descending_starts_late(
                self@.rows,
                1,
                self.first_id as int,
                self.next_id - 1,
            );
            lemma_descending_lists_all(self@.rows, 1, self.next_id - 1);
        }
        Ok(list)
    }

    /// `NotFound` exactly when nothing is stored under `id`; then nothing
    /// changes.
    fn update(&mut self, id: i32, payload: UpdateTodo) -> (r: Result<Todo, RepositoryError>)
        ensures
            old(self)@.wf(),
            final(self)@.wf(),
            final(self).todos() == final(self)@.rows,
            final(self)@ == old(self)@.update(id as int, payload.text_view(), payload.completed),
            todo_result_view(r) == old(self)@.updated(
                id as int,
                payload.text_view(),
                payload.completed,
            ),
    {
        proof {
            use_type_invariant(&*self);
        }
        let todo = match self.store.get(&id) {
            Some(old) => payload.apply(old),
            None => { return Err(RepositoryError::NotFound(id)); },
        };
        self.put(id, todo.clone());
        Ok(todo)
    }

    /// `NotFound` exactly when nothing is stored under `id`.
    fn delete(&mut self, id: i32) -> (r: Result<(), RepositoryError>)
        ensures
            old(self)@.wf(),
            final(self)@.wf(),
            final(self).todos() == final(self)@.rows,
            final(self)@ == old(self)@.delete(id as int),
            unit_result_view(r) == old(self)@.deleted(id as int),
    {
        proof {
            use_type_invariant(&*self);
        }
        if self.take(id) {
            Ok(())
        } else {
            Err(RepositoryError::NotFound(id))
        }
    }
}

} // verus!
