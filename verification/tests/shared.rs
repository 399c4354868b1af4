use todo_service::repositories::labels::Label;
use todo_service::repositories::shared::{
    SharedLabelRepository, SharedPlainTodoRepository, SharedTodoRepository,
};
use todo_service::repositories::todo::{
    CreateTodo, TodoEntity, TodoRepository as EntityRepository, TodoRepositoryForMemory, UpdateTodo,
};
use todo_service::repositories::labels::{LabelRepository, LabelRepositoryForMemory};
use todo_service::repositories::{
    CreateTodo as PlainCreateTodo, RepositoryError, Todo, TodoRepository,
    TodoRepositoryForMemory as PlainTodoRepositoryForMemory, UpdateTodo as PlainUpdateTodo,
};

fn sendable<T: Clone + Send + Sync + 'static>(_handle: &T) {}

#[test]
fn handles_can_cross_threads() {
    sendable(&SharedTodoRepository::new(vec![]));
    sendable(&SharedLabelRepository::new());
    sendable(&SharedPlainTodoRepository::new());
}

#[test]
fn clones_reach_the_same_todos() {
    let first = SharedTodoRepository::new(vec![Label::new(1, "home".to_string())]);
    let second = first.clone();
    let created = first.create(CreateTodo::new("a".to_string())).unwrap();
    assert_eq!(created, TodoEntity::new(1, "a".to_string()));
    assert_eq!(second.find(1).unwrap(), created);
    let updated = second
        .update(1, UpdateTodo { text: None, completed: Some(true), labels: Some(vec![1]) })
        .unwrap();
    assert_eq!(
        updated,
        TodoEntity {
            id: 1,
            text: "a".to_string(),
            completed: true,
            labels: vec![Label::new(1, "home".to_string())]
        }
    );
    assert_eq!(first.all().unwrap(), vec![updated]);
    assert!(second.delete(1).is_ok());
    match first.delete(1) {
        Err(RepositoryError::NotFound(id)) => assert_eq!(id, 1),
        other => panic!("unexpected: {:?}", other),
    }
    match first.find(1) {
        Err(RepositoryError::NotFound(id)) => assert_eq!(id, 1),
        other => panic!("unexpected: {:?}", other),
    }
    assert_eq!(second.create(CreateTodo::new("b".to_string())).unwrap().id, 2);
}

#[test]
fn a_shared_update_with_an_unknown_label_is_not_found() {
    let handle = SharedTodoRepository::new(vec![]);
    handle.create(CreateTodo::new("a".to_string())).unwrap();
    match handle.update(1, UpdateTodo { text: None, completed: None, labels: Some(vec![5]) }) {
        Err(RepositoryError::NotFound(id)) => assert_eq!(id, 5),
        other => panic!("unexpected: {:?}", other),
    }
}

#[test]
fn clones_reach_the_same_labels() {
    let first = SharedLabelRepository::new();
    let second = first.clone();
    let label = first.create("x".to_string()).unwrap();
    assert_eq!(label, Label::new(1, "x".to_string()));
    match second.create("x".to_string()) {
        Err(RepositoryError::Duplicate(id)) => assert_eq!(id, 1),
        other => panic!("unexpected: {:?}", other),
    }
    assert_eq!(second.all().unwrap(), vec![label]);
    assert!(second.delete(1).is_ok());
    assert!(first.delete(1).is_err());
    assert_eq!(first.all().unwrap(), vec![]);
}

#[test]
fn clones_reach_the_same_plain_todos() {
    let first = SharedPlainTodoRepository::new();
    let second = first.clone();
    let created = first.create(PlainCreateTodo::new("a".to_string())).unwrap();
    assert_eq!(created, Todo::new(1, "a".to_string()));
    assert_eq!(second.find(1).unwrap(), created);
    let updated =
        second.update(1, PlainUpdateTodo { text: None, completed: Some(true) }).unwrap();
    assert_eq!(updated, Todo { id: 1, text: "a".to_string(), completed: true });
    assert_eq!(first.all().unwrap(), vec![updated]);
    assert!(second.delete(1).is_ok());
    match first.delete(1) {
        Err(RepositoryError::NotFound(id)) => assert_eq!(id, 1),
        other => panic!("unexpected: {:?}", other),
    }
    assert_eq!(second.create(PlainCreateTodo::new("b".to_string())).unwrap().id, 2);
}

#[test]
fn a_store_that_is_shared_goes_on_as_it_was() {
    let mut store = PlainTodoRepositoryForMemory::starting_at(7);
    let kept = store.create(PlainCreateTodo::new("a".to_string())).unwrap();
    let first = SharedPlainTodoRepository::sharing(store);
    let second = first.clone();
    assert_eq!(second.find(7).unwrap(), kept);
    assert_eq!(first.create(PlainCreateTodo::new("b".to_string())).unwrap().id, 8);
    assert_eq!(second.all().unwrap(), vec![Todo::new(8, "b".to_string()), kept]);

    let mut labels = LabelRepositoryForMemory::new();
    let home = labels.create("home".to_string()).unwrap();
    let shared = SharedLabelRepository::sharing(labels);
    assert_eq!(shared.all().unwrap(), vec![home]);
    match shared.create("home".to_string()) {
        Err(RepositoryError::Duplicate(id)) => assert_eq!(id, 1),
        other => panic!("unexpected: {:?}", other),
    }
    assert_eq!(shared.create("work".to_string()).unwrap().id, 2);
}

#[test]
fn a_store_of_entities_that_is_shared_goes_on_as_it_was() {
    let mut store = TodoRepositoryForMemory::new(vec![Label::new(1, "home".to_string())]);
    let kept = store.create(CreateTodo::new("a".to_string())).unwrap();
    let shared = SharedTodoRepository::sharing(store);
    assert_eq!(shared.find(1).unwrap(), kept);
    let updated = shared
        .update(1, UpdateTodo { text: None, completed: None, labels: Some(vec![1]) })
        .unwrap();
    assert_eq!(updated.labels, vec![Label::new(1, "home".to_string())]);
    assert_eq!(shared.create(CreateTodo::new("b".to_string())).unwrap().id, 2);
}
