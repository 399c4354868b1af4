//! The endpoints for todos.

use crate::handlers::{StatusCode, ValidateJson};
use crate::repositories::listing::lists_exactly;
use crate::repositories::todo::{
    entity_views, update_of, CreateTodo, TodoEntity, TodoEntityView, TodoRepository, UpdateTodo,
};
use crate::repositories::{RepositoryError, RepositoryErrorView};
use vstd::prelude::*;

verus! {

/// The response to a request that was to create a todo, given what the
/// repository answered: 201 with the todo, or the status of the error.
pub fn create_todo_response(outcome: Result<TodoEntity, RepositoryError>) -> (r: Result<
    (StatusCode, TodoEntity),
    StatusCode,
>)
    ensures
        match outcome {
            Ok(todo) => r == Ok::<(StatusCode, TodoEntity), StatusCode>(
                (StatusCode::Created, todo),
            ),
            Err(e) => r == Err::<(StatusCode, TodoEntity), StatusCode>(e@.status()),
        },
{
    match outcome {
        Ok(todo) => Ok((StatusCode::Created, todo)),
        Err(e) => Err(e.status()),
    }
}

/// The response to a request for one todo, or to one that was to change a
/// todo, given what the repository answered: 200 with the todo, or the status
/// of the error, which is 404 where the todo, or a label that was named, is
/// not there.
pub fn todo_response(outcome: Result<TodoEntity, RepositoryError>) -> (r: Result<
    (StatusCode, TodoEntity),
    StatusCode,
>)
    ensures
        match outcome {
            Ok(todo) => r == Ok::<(StatusCode, TodoEntity), StatusCode>((StatusCode::Okay, todo)),
            Err(e) => r == Err::<(StatusCode, TodoEntity), StatusCode>(e@.status()),
        },
{
    match outcome {
        Ok(todo) => Ok((StatusCode::Okay, todo)),
        Err(e) => Err(e.status()),
    }
}

/// The response to a request for all todos, given what the repository
/// answered: 200 with the todos, or the status of the error.
pub fn all_todos_response(outcome: Result<Vec<TodoEntity>, RepositoryError>) -> (r: Result<
    (StatusCode, Vec<TodoEntity>),
    StatusCode,
>)
    ensures
        match outcome {
            Ok(todos) => r == Ok::<(StatusCode, Vec<TodoEntity>), StatusCode>(
                (StatusCode::Okay, todos),
            ),
            Err(e) => r == Err::<(StatusCode, Vec<TodoEntity>), StatusCode>(e@.status()),
        },
{
    match outcome {
        Ok(todos) => Ok((StatusCode::Okay, todos)),
        Err(e) => Err(e.status()),
    }
}

/// The response to a request that was to delete a todo, given what the
/// repository answered: 204, or the status of the error, which is 404 where
/// the todo is not there.
pub fn delete_todo_response(outcome: Result<(), RepositoryError>) -> (status: StatusCode)
    ensures
        status == match outcome {
            Ok(_) => StatusCode::NoContent,
            Err(e) => e@.status(),
        },
{
    match outcome {
        Ok(_) => StatusCode::NoContent,
        Err(e) => e.status(),
    }
}

/// Creates a todo of the text that the payload carries: 201 with the new
/// todo, or 500 if the repository failed. Then nothing was stored. A
/// repository that has room does not fail.
pub fn create_todo<T: TodoRepository>(payload: ValidateJson<CreateTodo>, repository: &mut T) -> (r:
    Result<(StatusCode, TodoEntity), StatusCode>)
    ensures
        final(repository).dependable() == old(repository).dependable(),
        old(repository).has_room() ==> r is Ok,
        final(repository).labels() == old(repository).labels(),
        match r {
            Ok((status, todo)) => {
                &&& status == StatusCode::Created
                &&& !old(repository).todos().contains_key(todo.id as int)
                &&& todo@ == (TodoEntityView {
                    id: todo.id as int,
                    text: payload.payload().text@,
                    completed: false,
                    labels: Seq::empty(),
                })
                &&& final(repository).todos() == old(repository).todos().insert(
                    todo.id as int,
                    todo@,
                )
            },
            Err(status) => {
                &&& status == StatusCode::InternalServerError
                &&& final(repository).todos() == old(repository).todos()
            },
        },
{
    let payload = payload.into_inner();
    create_todo_response(repository.create(payload))
}

/// Finds the todo with this id: 200 with the todo, 404 if there is none, or
/// 500 if the repository failed.
pub fn find_todo<T: TodoRepository>(id: i32, repository: &T) -> (r: Result<
    (StatusCode, TodoEntity),
    StatusCode,
>)
    ensures
        repository.dependable() && r is Err ==> r == Err::<(StatusCode, TodoEntity), StatusCode>(
            StatusCode::NotFound,
        ),
        repository.dependable() ==> (r is Ok <==> repository.todos().contains_key(id as int)),
        match r {
            Ok((status, todo)) => {
                &&& status == StatusCode::Okay
                &&& repository.todos().contains_key(id as int)
                &&& todo@ == repository.todos()[id as int]
            },
            Err(status) => {
                &&& status == StatusCode::NotFound || status == StatusCode::InternalServerError
                &&& status == StatusCode::NotFound ==> !repository.todos().contains_key(id as int)
            },
        },
{
    todo_response(repository.find(id))
}

/// Lists the todos: 200 with every stored todo, once; or 500 if the
/// repository failed.
pub fn all_todos<T: TodoRepository>(repository: &T) -> (r: Result<
    (StatusCode, Vec<TodoEntity>),
    StatusCode,
>)
    ensures
        repository.dependable() ==> r is Ok,
        match r {
            Ok((status, todos)) => status == StatusCode::Okay && lists_exactly(
                entity_views(todos@),
                repository.todos(),
            ),
            Err(status) => status == StatusCode::InternalServerError,
        },
{
    all_todos_response(repository.all())
}

/// Changes the todo with this id as the payload says: 200 with the todo as
/// it is now, 404 if there is no such todo or if a label that the payload
/// names does not exist, or 500 if the repository failed. Then nothing has
/// changed.
pub fn update_todo<T: TodoRepository>(
    id: i32,
    payload: ValidateJson<UpdateTodo>,
    repository: &mut T,
) -> (r: Result<(StatusCode, TodoEntity), StatusCode>)
    ensures
        final(repository).has_room() == old(repository).has_room(),
        old(repository).dependable() && r is Err ==> r == Err::<
            (StatusCode, TodoEntity),
            StatusCode,
        >(StatusCode::NotFound),
        final(repository).dependable() == old(repository).dependable(),
        old(repository).dependable() ==> (r is Ok <==> old(repository).todos().contains_key(
            id as int,
        ) && update_of(
            old(repository).todos()[id as int],
            old(repository).labels(),
            payload.payload().text_view(),
            payload.payload().completed,
            payload.payload().label_ids(),
        ) is Ok),
        final(repository).labels() == old(repository).labels(),
        match r {
            Ok((status, todo)) => {
                &&& status == StatusCode::Okay
                &&& old(repository).todos().contains_key(id as int)
                &&& Ok::<TodoEntityView, RepositoryErrorView>(todo@) == update_of(
                    old(repository).todos()[id as int],
                    old(repository).labels(),
                    payload.payload().text_view(),
                    payload.payload().completed,
                    payload.payload().label_ids(),
                )
                &&& final(repository).todos() == old(repository).todos().insert(id as int, todo@)
            },
            Err(status) => {
                &&& status == StatusCode::NotFound || status == StatusCode::InternalServerError
                &&& final(repository).todos() == old(repository).todos()
                &&& status == StatusCode::NotFound ==> !(update_of(
                    old(repository).todos()[id as int],
                    old(repository).labels(),
                    payload.payload().text_view(),
                    payload.payload().completed,
                    payload.payload().label_ids(),
                ) is Ok && old(repository).todos().contains_key(id as int))
            },
        },
{
    let payload = payload.into_inner();
    todo_response(repository.update(id, payload))
}

/// Deletes the todo with this id: 204 if it was stored, 404 if it was not,
/// or 500 if the repository failed. Then nothing has changed.
pub fn delete_todo<T: TodoRepository>(id: i32, repository: &mut T) -> (status: StatusCode)
    ensures
        final(repository).has_room() == old(repository).has_room(),
        old(repository).dependable() && !old(repository).todos().contains_key(id as int)
            ==> status == StatusCode::NotFound,
        final(repository).dependable() == old(repository).dependable(),
        old(repository).dependable() ==> (status == StatusCode::NoContent <==> old(
            repository,
        ).todos().contains_key(id as int)),
        final(repository).labels() == old(repository).labels(),
        status == StatusCode::NoContent || status == StatusCode::NotFound || status
            == StatusCode::InternalServerError,
        status == StatusCode::NoContent ==> old(repository).todos().contains_key(id as int)
            && final(repository).todos() == old(repository).todos().remove(id as int),
        status != StatusCode::NoContent ==> final(repository).todos() == old(repository).todos(),
        status == StatusCode::NotFound ==> !old(repository).todos().contains_key(id as int),
{
    delete_todo_response(repository.delete(id))
}

/// What the service says at its root.
pub fn root() -> (greeting: &'static str)
    ensures
        greeting@ == "Hello, World!"@,
{
    "Hello, World!"
}

} // verus!
