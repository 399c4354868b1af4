use todo_service::repositories::{
    CreateTodo, RepositoryError, Todo, TodoRepository, TodoRepositoryForMemory, UpdateTodo,
};

#[test]
fn todo_crud_scenario() {
    let text = "todo text".to_string();
    let id = 1;
    let expected = Todo::new(id, text.clone());

    // create
    let mut repository = TodoRepositoryForMemory::new();
    let todo = repository.create(CreateTodo { text }).expect("failed create todo");
    assert_eq!(expected, todo);

    // find
    let todo = repository.find(todo.id).unwrap();
    assert_eq!(expected, todo);

    // all
    let todo = repository.all().expect("failed get all todo");
    assert_eq!(vec![expected], todo);

    // update
    let text = "update todo text".to_string();
    let todo = repository
        .update(1, UpdateTodo { text: Some(text.clone()), completed: Some(true) })
        .expect("failed update todo.");
    assert_eq!(Todo { id, text, completed: true }, todo);

    // delete
    let res = repository.delete(id);
    assert!(res.is_ok())
}

#[test]
fn created_todo_is_found_again() {
    let mut repository = TodoRepositoryForMemory::new();
    for text in ["a", "buy milk", "x y z"] {
        let created = repository.create(CreateTodo::new(text.to_string())).unwrap();
        assert_eq!(created.text, text);
        assert!(!created.completed);
        let found = repository.find(created.id).unwrap();
        assert_eq!(created, found);
    }
}

#[test]
fn ids_count_up_from_one() {
    let mut repository = TodoRepositoryForMemory::new();
    let first = repository.create(CreateTodo::new("a".to_string())).unwrap();
    let second = repository.create(CreateTodo::new("b".to_string())).unwrap();
    assert_eq!(first.id, 1);
    assert_eq!(second.id, 2);
}

#[test]
fn an_id_is_not_handed_out_twice() {
    let mut repository = TodoRepositoryForMemory::new();
    repository.create(CreateTodo::new("a".to_string())).unwrap();
    repository.create(CreateTodo::new("b".to_string())).unwrap();
    repository.create(CreateTodo::new("c".to_string())).unwrap();
    repository.delete(1).unwrap();
    let fourth = repository.create(CreateTodo::new("d".to_string())).unwrap();
    assert_eq!(fourth.id, 4);
    assert_eq!(repository.find(3).unwrap(), Todo::new(3, "c".to_string()));
    assert_eq!(repository.find(4).unwrap(), Todo::new(4, "d".to_string()));
}

#[test]
fn find_of_a_missing_id_is_not_found() {
    let repository = TodoRepositoryForMemory::new();
    match repository.find(7) {
        Err(RepositoryError::NotFound(id)) => assert_eq!(id, 7),
        other => panic!("unexpected: {:?}", other),
    }
}

#[test]
fn delete_succeeds_once() {
    let mut repository = TodoRepositoryForMemory::new();
    let todo = repository.create(CreateTodo::new("a".to_string())).unwrap();
    assert!(repository.delete(todo.id).is_ok());
    match repository.delete(todo.id) {
        Err(RepositoryError::NotFound(id)) => assert_eq!(id, todo.id),
        other => panic!("unexpected: {:?}", other),
    }
    assert!(repository.find(todo.id).is_err());
}

#[test]
fn update_keeps_the_fields_that_are_absent() {
    let mut repository = TodoRepositoryForMemory::new();
    let todo = repository.create(CreateTodo::new("a".to_string())).unwrap();
    let updated =
        repository.update(todo.id, UpdateTodo { text: None, completed: Some(true) }).unwrap();
    assert_eq!(updated, Todo { id: todo.id, text: "a".to_string(), completed: true });
    let updated =
        repository.update(todo.id, UpdateTodo { text: Some("b".to_string()), completed: None }).unwrap();
    assert_eq!(updated, Todo { id: todo.id, text: "b".to_string(), completed: true });
    let updated = repository.update(todo.id, UpdateTodo { text: None, completed: None }).unwrap();
    assert_eq!(updated, Todo { id: todo.id, text: "b".to_string(), completed: true });
    assert_eq!(repository.find(todo.id).unwrap(), updated);
}

#[test]
fn update_of_a_missing_id_is_not_found() {
    let mut repository = TodoRepositoryForMemory::new();
    match repository.update(3, UpdateTodo { text: None, completed: Some(true) }) {
        Err(RepositoryError::NotFound(id)) => assert_eq!(id, 3),
        other => panic!("unexpected: {:?}", other),
    }
    assert_eq!(repository.all().unwrap(), vec![]);
}

#[test]
fn all_lists_the_newest_first() {
    let mut repository = TodoRepositoryForMemory::new();
    repository.create(CreateTodo::new("a".to_string())).unwrap();
    repository.create(CreateTodo::new("b".to_string())).unwrap();
    repository.create(CreateTodo::new("c".to_string())).unwrap();
    repository.delete(2).unwrap();
    assert_eq!(
        repository.all().unwrap(),
        vec![Todo::new(3, "c".to_string()), Todo::new(1, "a".to_string())]
    );
}

#[test]
fn apply_lays_the_payload_over_the_todo() {
    let old = Todo { id: 5, text: "old".to_string(), completed: true };
    let todo = UpdateTodo { text: Some("new".to_string()), completed: Some(false) }.apply(&old);
    assert_eq!(todo, Todo { id: 5, text: "new".to_string(), completed: false });
    let todo = UpdateTodo { text: None, completed: None }.apply(&old);
    assert_eq!(todo, old);
}

#[test]
fn the_last_id_is_not_handed_out() {
    let mut repository = TodoRepositoryForMemory::starting_at(i32::MAX - 1);
    let last = repository.create(CreateTodo::new("a".to_string())).unwrap();
    assert_eq!(last.id, i32::MAX - 1);
    match repository.create(CreateTodo::new("b".to_string())) {
        Err(RepositoryError::Unexpected(message)) => assert_eq!(message, "todo ids are used up"),
        other => panic!("unexpected: {:?}", other),
    }
    assert_eq!(repository.find(i32::MAX - 1).unwrap(), last);
    assert!(repository.find(i32::MAX).is_err());
}

#[test]
fn a_store_starts_at_one_at_least() {
    let mut repository = TodoRepositoryForMemory::starting_at(-5);
    assert_eq!(repository.create(CreateTodo::new("a".to_string())).unwrap().id, 1);
    let mut repository = TodoRepositoryForMemory::starting_at(40);
    assert_eq!(repository.create(CreateTodo::new("a".to_string())).unwrap().id, 40);
    assert_eq!(repository.all().unwrap(), vec![Todo::new(40, "a".to_string())]);
}
