//! The in-memory stores behind a lock, for many owners at once.
//!
//! A handle can be cloned cheaply; all clones reach the one store. Reading
//! takes the lock shared, changing takes it alone, and it is held for the one
//! operation only. What a handle answers is what the store answers in the
//! state in which the operation finds it: between two calls another handle may
//! have changed the store. A handle knows how its store began, and the lock
//! keeps every later state one that has come of that beginning.

use crate::repositories::labels::{
    label_result_view, label_views, Label, LabelRepository, LabelRepositoryForMemory, LabelTable,
    LabelView,
};
use crate::repositories::todo::{
    entity_result_view, entity_views, CreateTodo, EntityTable, TodoEntity, TodoRepository,
    TodoRepositoryForMemory, UpdateTodo,
};
use crate::repositories::{
    todo_result_view, todo_views, unit_result_view, RepositoryError, Todo,
    TodoRepository as PlainTodoRepository, TodoRepositoryForMemory as PlainTodoRepositoryForMemory,
    TodoTable,
};
use crate::repositories::{CreateTodo as PlainCreateTodo, UpdateTodo as PlainUpdateTodo};
use std::sync::Arc;
use vstd::prelude::*;
use vstd::rwlock::RwLock;

verus! {

/// `table` can come of `origin` by creating, changing and deleting todos:
/// an update can name the same labels, the counter has not fallen, and under
/// an id that `origin` had handed out already it holds no todo that `origin`
/// did not hold.
pub open spec fn entities_grown_from(table: EntityTable, origin: EntityTable) -> bool {
    &&& table.labels == origin.labels
    &&& origin.next_id <= table.next_id
    &&& forall|id: int|
        #![trigger table.rows.contains_key(id)]
        table.rows.contains_key(id) && id < origin.next_id ==> origin.rows.contains_key(id)
}

/// What the lock keeps true of a todo store: whatever its owners do, its
/// state has come of the state in which it was shared.
pub open spec fn keeps_entities(origin: EntityTable) -> spec_fn(TodoRepositoryForMemory) -> bool {
    |repository: TodoRepositoryForMemory| entities_grown_from(repository@, origin)
}

/// `table` is a state that a shared todo store can be in, if it began as
/// `origin`.
pub open spec fn todo_state(table: EntityTable, origin: EntityTable) -> bool {
    table.wf() && entities_grown_from(table, origin)
}

/// A handle to a store of todos with labels that many owners share.
pub struct SharedTodoRepository {
    lock: Arc<RwLock<TodoRepositoryForMemory, spec_fn(TodoRepositoryForMemory) -> bool>>,
    origin: Ghost<EntityTable>,
}

impl SharedTodoRepository {
    #[verifier::type_invariant]
    spec fn inv(self) -> bool {
        self.lock.pred() == keeps_entities(self.origin@)
    }

    /// The state in which the store behind the handle began. All that the
    /// handles do to the store starts from there.
    pub closed spec fn origin(&self) -> EntityTable {
        self.origin@
    }

    /// The labels that an update can name.
    pub open spec fn labels(&self) -> Seq<LabelView> {
        self.origin().labels
    }

    /// A handle to a new store, which begins without todos and hands out
    /// the ids from 1 on, and whose updates can name `labels`.
    pub fn new(labels: Vec<Label>) -> (handle: Self)
        ensures
            handle.origin() == EntityTable::empty(label_views(labels@)),
    {
        SharedTodoRepository::sharing(TodoRepositoryForMemory::new(labels))
    }

    /// A handle to `repository`, which from now on is reached through
    /// handles only. The store begins as `repository` is.
    pub fn sharing(repository: TodoRepositoryForMemory) -> (handle: Self)
        ensures
            handle.origin() == repository@,
    {
        let ghost origin = repository@;
        SharedTodoRepository {
            lock: Arc::new(RwLock::new(repository, Ghost(keeps_entities(origin)))),
            origin: Ghost(origin),
        }
    }

    /// What `create` answers on the store as it is.
    pub fn create(&self, payload: CreateTodo) -> (r: Result<TodoEntity, RepositoryError>)
        ensures
            exists|table: EntityTable| #[trigger]
                todo_state(table, self.origin()) && entity_result_view(r) == table.created(
                    payload.text@,
                ),
    {
        proof {
            use_type_invariant(self);
        }
        let (mut repository, handle) = self.lock.acquire_write();
        let ghost table = repository@;
        let r = repository.create(payload);
        handle.release_write(repository);
        assert(todo_state(table, self.origin()));
        r
    }

    /// What `find` answers on the store as it is.
    pub fn find(&self, id: i32) -> (r: Result<TodoEntity, RepositoryError>)
        ensures
            exists|table: EntityTable| #[trigger]
                todo_state(table, self.origin()) && entity_result_view(r) == table.found(id as int),
    {
        proof {
            use_type_invariant(self);
        }
        let handle = self.lock.acquire_read();
        let repository = handle.borrow();
        let r = repository.find(id);
        assert(todo_state(repository@, self.origin()));
        handle.release_read();
        r
    }

    /// What `all` answers on the store as it is: every todo, the newest
    /// first.
    pub fn all(&self) -> (r: Result<Vec<TodoEntity>, RepositoryError>)
        ensures
            r matches Ok(list) && (exists|table: EntityTable| #[trigger]
                todo_state(table, self.origin()) && entity_views(list@) == table.listing()),
    {
        proof {
            use_type_invariant(self);
        }
        let handle = self.lock.acquire_read();
        let repository = handle.borrow();
        let r = repository.all();
        assert(todo_state(repository@, self.origin()));
        handle.release_read();
        r
    }

    /// What `update` answers on the store as it is.
    pub fn update(&self, id: i32, payload: UpdateTodo) -> (r: Result<TodoEntity, RepositoryError>)
        ensures
            exists|table: EntityTable| #[trigger]
                todo_state(table, self.origin()) && entity_result_view(r) == table.updated(
                    id as int,
                    payload.text_view(),
                    payload.completed,
                    payload.label_ids(),
                ),
    {
        proof {
            use_type_invariant(self);
        }
        let (mut repository, handle) = self.lock.acquire_write();
        let ghost table = repository@;
        let r = repository.update(id, payload);
        handle.release_write(repository);
        assert(todo_state(table, self.origin()));
        r
    }

    /// What `delete` answers on the store as it is.
    pub fn delete(&self, id: i32) -> (r: Result<(), RepositoryError>)
        ensures
            exists|table: EntityTable| #[trigger]
                todo_state(table, self.origin()) && unit_result_view(r) == table.deleted(id as int),
    {
        proof {
            use_type_invariant(self);
        }
        let (mut repository, handle) = self.lock.acquire_write();
        let ghost table = repository@;
        let r = repository.delete(id);
        handle.release_write(repository);
        assert(todo_state(table, self.origin()));
        r
    }
}

impl Clone for SharedTodoRepository {
    /// Another handle to the same store.
    fn clone(&self) -> (handle: Self)
        ensures
            handle.origin() == self.origin(),
    {
        proof {
            use_type_invariant(self);
        }
        SharedTodoRepository { lock: share(&self.lock), origin: self.origin }
    }
}

/// Calls `Arc::clone`: the result points to the same value.
#[verifier::external_body]
fn share<T>(handle: &Arc<T>) -> (copy: Arc<T>)
    ensures
        copy == *handle,
{
    Arc::clone(handle)
}

/// `table` can come of `origin` by creating, changing and deleting todos:
/// its counter has not fallen, and under an id that `origin` had handed out
/// already it holds no todo that `origin` did not hold.
pub open spec fn todos_grown_from(table: TodoTable, origin: TodoTable) -> bool {
    &&& origin.next_id <= table.next_id
    &&& forall|id: int|
        #![trigger table.rows.contains_key(id)]
        table.rows.contains_key(id) && id < origin.next_id ==> origin.rows.contains_key(id)
}

/// `table` is a state that a shared store of todos without labels can be
/// in, if it began as `origin`.
pub open spec fn plain_todo_state(table: TodoTable, origin: TodoTable) -> bool {
    table.wf() && todos_grown_from(table, origin)
}

/// What the lock keeps true of a store of todos without labels: whatever
/// its owners do, its state has come of the state in which it was shared.
pub open spec fn keeps_todos(origin: TodoTable) -> spec_fn(PlainTodoRepositoryForMemory) -> bool {
    |repository: PlainTodoRepositoryForMemory| todos_grown_from(repository@, origin)
}

/// A handle to a store of todos without labels that many owners share.
pub struct SharedPlainTodoRepository {
    lock: Arc<RwLock<PlainTodoRepositoryForMemory, spec_fn(PlainTodoRepositoryForMemory) -> bool>>,
    origin: Ghost<TodoTable>,
}

impl SharedPlainTodoRepository {
    #[verifier::type_invariant]
    spec fn inv(self) -> bool {
        self.lock.pred() == keeps_todos(self.origin@)
    }

    /// The state in which the store behind the handle began. All that the
    /// handles do to the store starts from there.
    pub closed spec fn origin(&self) -> TodoTable {
        self.origin@
    }

    /// A handle to a new store, which begins without todos and hands out
    /// the ids from 1 on.
    pub fn new() -> (handle: Self)
        ensures
            handle.origin() == TodoTable::empty(),
    {
        SharedPlainTodoRepository::sharing(PlainTodoRepositoryForMemory::new())
    }

    /// A handle to `repository`, which from now on is reached through
    /// handles only. The store begins as `repository` is.
    pub fn sharing(repository: PlainTodoRepositoryForMemory) -> (handle: Self)
        ensures
            handle.origin() == repository@,
    {
        let ghost origin = repository@;
        SharedPlainTodoRepository {
            lock: Arc::new(RwLock::new(repository, Ghost(keeps_todos(origin)))),
            origin: Ghost(origin),
        }
    }

    /// What `create` answers on the store as it is.
    pub fn create(&self, payload: PlainCreateTodo) -> (r: Result<Todo, RepositoryError>)
        ensures
            exists|table: TodoTable| #[trigger]
                plain_todo_state(table, self.origin()) && todo_result_view(r) == table.created(payload.text@),
    {
        proof {
            use_type_invariant(self);
        }
        let (mut repository, handle) = self.lock.acquire_write();
        let ghost table = repository@;
        let r = repository.create(payload);
        handle.release_write(repository);
        assert(plain_todo_state(table, self.origin()));
        r
    }

    /// What `find` answers on the store as it is.
    pub fn find(&self, id: i32) -> (r: Result<Todo, RepositoryError>)
        ensures
            exists|table: TodoTable| #[trigger]
                plain_todo_state(table, self.origin()) && todo_result_view(r) == table.found(id as int),
    {
        proof {
            use_type_invariant(self);
        }
        let handle = self.lock.acquire_read();
        let repository = handle.borrow();
        let r = repository.find(id);
        assert(plain_todo_state(repository@, self.origin()));
        handle.release_read();
        r
    }

    /// What `all` answers on the store as it is: every todo, the newest
    /// first.
    pub fn all(&self) -> (r: Result<Vec<Todo>, RepositoryError>)
        ensures
            r matches Ok(list) && (exists|table: TodoTable| #[trigger]
                plain_todo_state(table, self.origin()) && todo_views(list@) == table.listing()),
    {
        proof {
            use_type_invariant(self);
        }
        let handle = self.lock.acquire_read();
        let repository = handle.borrow();
        let r = repository.all();
        assert(plain_todo_state(repository@, self.origin()));
        handle.release_read();
        r
    }

    /// What `update` answers on the store as it is.
    pub fn update(&self, id: i32, payload: PlainUpdateTodo) -> (r: Result<Todo, RepositoryError>)
        ensures
            exists|table: TodoTable| #[trigger]
                plain_todo_state(table, self.origin()) && todo_result_view(r) == table.updated(
                    id as int,
                    payload.text_view(),
                    payload.completed,
                ),
    {
        proof {
            use_type_invariant(self);
        }
        let (mut repository, handle) = self.lock.acquire_write();
        let ghost table = repository@;
        let r = repository.update(id, payload);
        handle.release_write(repository);
        assert(plain_todo_state(table, self.origin()));
        r
    }

    /// What `delete` answers on the store as it is.
    pub fn delete(&self, id: i32) -> (r: Result<(), RepositoryError>)
        ensures
            exists|table: TodoTable| #[trigger]
                plain_todo_state(table, self.origin()) && unit_result_view(r) == table.deleted(id as int),
    {
        proof {
            use_type_invariant(self);
        }
        let (mut repository, handle) = self.lock.acquire_write();
        let ghost table = repository@;
        let r = repository.delete(id);
        handle.release_write(repository);
        assert(plain_todo_state(table, self.origin()));
        r
    }
}

impl Clone for SharedPlainTodoRepository {
    /// Another handle to the same store.
    fn clone(&self) -> (handle: Self)
        ensures
            handle.origin() == self.origin(),
    {
        proof {
            use_type_invariant(self);
        }
        SharedPlainTodoRepository { lock: share(&self.lock), origin: self.origin }
    }
}

/// `table` can come of `origin` by creating and deleting labels: its
/// counter has not fallen, and under an id that `origin` had handed out
/// already it holds no label but the one that `origin` held there.
pub open spec fn labels_grown_from(table: LabelTable, origin: LabelTable) -> bool {
    &&& origin.next_id <= table.next_id
    &&& forall|id: int|
        #![trigger table.rows.contains_key(id)]
        table.rows.contains_key(id) && id < origin.next_id ==> origin.rows.contains_key(id)
            && origin.rows[id] == table.rows[id]
}

/// `table` is a state that a shared label store can be in, if it began as
/// `origin`.
pub open spec fn label_state(table: LabelTable, origin: LabelTable) -> bool {
    table.wf() && labels_grown_from(table, origin)
}

/// What the lock keeps true of a label store: whatever its owners do, its
/// state has come of the state in which it was shared.
pub open spec fn keeps_labels_of(origin: LabelTable) -> spec_fn(LabelRepositoryForMemory) -> bool {
    |repository: LabelRepositoryForMemory| labels_grown_from(repository@, origin)
}

/// A handle to a label store that many owners share.
pub struct SharedLabelRepository {
    lock: Arc<RwLock<LabelRepositoryForMemory, spec_fn(LabelRepositoryForMemory) -> bool>>,
    origin: Ghost<LabelTable>,
}

impl SharedLabelRepository {
    #[verifier::type_invariant]
    spec fn inv(self) -> bool {
        self.lock.pred() == keeps_labels_of(self.origin@)
    }

    /// The state in which the store behind the handle began. All that the
    /// handles do to the store starts from there.
    pub closed spec fn origin(&self) -> LabelTable {
        self.origin@
    }

    /// A handle to a new store, which begins without labels and hands out
    /// the ids from 1 on.
    pub fn new() -> (handle: Self)
        ensures
            handle.origin() == LabelTable::empty(),
    {
        SharedLabelRepository::sharing(LabelRepositoryForMemory::new())
    }

    /// A handle to `repository`, which from now on is reached through
    /// handles only. The store begins as `repository` is.
    pub fn sharing(repository: LabelRepositoryForMemory) -> (handle: Self)
        ensures
            handle.origin() == repository@,
    {
        let ghost origin = repository@;
        SharedLabelRepository {
            lock: Arc::new(RwLock::new(repository, Ghost(keeps_labels_of(origin)))),
            origin: Ghost(origin),
        }
    }

    /// What `create` answers on the store as it is.
    pub fn create(&self, name: String) -> (r: Result<Label, RepositoryError>)
        ensures
            exists|table: LabelTable| #[trigger]
                label_state(table, self.origin()) && label_result_view(r) == table.created(name@),
    {
        proof {
            use_type_invariant(self);
        }
        let (mut repository, handle) = self.lock.acquire_write();
        let ghost table = repository@;
        let r = repository.create(name);
        handle.release_write(repository);
        assert(label_state(table, self.origin()));
        r
    }

    /// What `all` answers on the store as it is: every label, the oldest
    /// first.
    pub fn all(&self) -> (r: Result<Vec<Label>, RepositoryError>)
        ensures
            r matches Ok(list) && (exists|table: LabelTable| #[trigger]
                label_state(table, self.origin()) && label_views(list@) == table.listing()),
    {
        proof {
            use_type_invariant(self);
        }
        let handle = self.lock.acquire_read();
        let repository = handle.borrow();
        let r = repository.all();
        assert(label_state(repository@, self.origin()));
        handle.release_read();
        r
    }

    /// What `delete` answers on the store as it is.
    pub fn delete(&self, id: i32) -> (r: Result<(), RepositoryError>)
        ensures
            exists|table: LabelTable| #[trigger]
                label_state(table, self.origin()) && unit_result_view(r) == table.deleted(id as int),
    {
        proof {
            use_type_invariant(self);
        }
        let (mut repository, handle) = self.lock.acquire_write();
        let ghost table = repository@;
        let r = repository.delete(id);
        handle.release_write(repository);
        assert(label_state(table, self.origin()));
        r
    }
}

impl Clone for SharedLabelRepository {
    /// Another handle to the same store.
    fn clone(&self) -> (handle: Self)
        ensures
            handle.origin() == self.origin(),
    {
        proof {
            use_type_invariant(self);
        }
        SharedLabelRepository { lock: share(&self.lock), origin: self.origin }
    }
}

} // verus!
