use todo_service::repositories::labels::Label;
use todo_service::repositories::todo::{
    after_insert, after_select, after_select_all, after_update, find_label, fold_entities,
    fold_entity, plan_update, resolve_labels, CreateTodo, TodoEntity, TodoRepository, UpdatePlan,
    TodoRepositoryForMemory, TodoWithLabelFromRow, UpdateTodo,
};
use todo_service::repositories::{
    row_for, row_removed, rows_or_unexpected, DriverError, RepositoryError,
};

fn row(id: i32, text: &str, completed: bool, label: Option<(i32, &str)>) -> TodoWithLabelFromRow {
    TodoWithLabelFromRow {
        id,
        text: text.to_string(),
        completed,
        label_id: label.map(|l| l.0),
        label_name: label.map(|l| l.1.to_string()),
    }
}

fn entity(id: i32, text: &str, completed: bool, labels: Vec<Label>) -> TodoEntity {
    TodoEntity { id, text: text.to_string(), completed, labels }
}

fn labels() -> Vec<Label> {
    vec![
        Label::new(1, "home".to_string()),
        Label::new(2, "work".to_string()),
        Label::new(3, "shop".to_string()),
    ]
}

#[test]
fn crud_scenario() {
    let mut repository = TodoRepositoryForMemory::new(vec![]);
    let todo_text = "[crud_scenario] text";

    // create
    let created =
        repository.create(CreateTodo::new(todo_text.to_string())).expect("[create] returned Err");
    assert_eq!(created.text, todo_text);
    assert!(!created.completed);

    // find
    let todo = repository.find(created.id).expect("[find] returned Err");
    assert_eq!(created, todo);

    // all
    let todos = repository.all().expect("[all] returned Err");
    let todo = todos.first().unwrap();
    assert_eq!(created, *todo);

    // update
    let updated_text = "[crud_scenario] updated text";
    let todo = repository
        .update(
            todo.id,
            UpdateTodo {
                text: Some(updated_text.to_string()),
                completed: Some(true),
                labels: Some(vec![]),
            },
        )
        .expect("[update] returned Err");
    assert_eq!(created.id, todo.id);
    assert_eq!(todo.text, updated_text);

    // delete
    repository.delete(todo.id).expect("[delete] returned Err");
    let res = repository.find(created.id);
    assert!(res.is_err());
    assert_eq!(repository.all().unwrap().len(), 0)
}

#[test]
fn a_new_entity_has_no_labels() {
    let todo = TodoEntity::new(3, "a".to_string());
    assert_eq!(todo, entity(3, "a", false, vec![]));
}

#[test]
fn rows_without_labels_fold_one_to_one() {
    let rows = vec![row(3, "c", true, None), row(2, "b", false, None), row(1, "a", false, None)];
    assert_eq!(
        fold_entities(rows),
        vec![
            entity(3, "c", true, vec![]),
            entity(2, "b", false, vec![]),
            entity(1, "a", false, vec![])
        ]
    );
}

#[test]
fn rows_of_one_id_fold_into_one_entity() {
    let rows = vec![
        row(2, "b", false, Some((1, "home"))),
        row(1, "a", true, Some((2, "work"))),
        row(2, "b", false, Some((3, "shop"))),
        row(3, "c", false, None),
        row(1, "a", true, Some((1, "home"))),
    ];
    assert_eq!(
        fold_entities(rows),
        vec![
            entity(
                2,
                "b",
                false,
                vec![Label::new(1, "home".to_string()), Label::new(3, "shop".to_string())]
            ),
            entity(
                1,
                "a",
                true,
                vec![Label::new(2, "work".to_string()), Label::new(1, "home".to_string())]
            ),
            entity(3, "c", false, vec![]),
        ]
    );
}

#[test]
fn the_first_row_of_an_id_gives_text_and_state() {
    let rows = vec![row(1, "first", false, None), row(1, "second", true, Some((2, "work")))];
    assert_eq!(
        fold_entities(rows),
        vec![entity(1, "first", false, vec![Label::new(2, "work".to_string())])]
    );
}

#[test]
fn no_rows_fold_into_nothing() {
    assert_eq!(fold_entities(vec![]), vec![]);
}

#[test]
fn a_row_with_half_a_label_has_none() {
    let half = TodoWithLabelFromRow {
        id: 1,
        text: "a".to_string(),
        completed: false,
        label_id: Some(4),
        label_name: None,
    };
    assert_eq!(half.label(), None);
    assert_eq!(fold_entity(half), entity(1, "a", false, vec![]));
}

#[test]
fn a_single_row_folds_into_its_entity() {
    assert_eq!(fold_entity(row(7, "g", true, None)), entity(7, "g", true, vec![]));
    assert_eq!(
        fold_entity(row(7, "g", true, Some((2, "work")))),
        entity(7, "g", true, vec![Label::new(2, "work".to_string())])
    );
}

#[test]
fn labels_resolve_in_the_order_of_the_ids() {
    let found = resolve_labels(&labels(), &vec![3, 1]).unwrap();
    assert_eq!(found, vec![Label::new(3, "shop".to_string()), Label::new(1, "home".to_string())]);
    assert_eq!(resolve_labels(&labels(), &vec![]).unwrap(), vec![]);
    assert_eq!(
        resolve_labels(&labels(), &vec![2, 2]).unwrap(),
        vec![Label::new(2, "work".to_string()), Label::new(2, "work".to_string())]
    );
}

#[test]
fn an_id_that_names_no_label_is_not_found() {
    match resolve_labels(&labels(), &vec![1, 9, 8]) {
        Err(RepositoryError::NotFound(id)) => assert_eq!(id, 9),
        other => panic!("unexpected: {:?}", other),
    }
    assert_eq!(find_label(&labels(), 2), Some(Label::new(2, "work".to_string())));
    assert_eq!(find_label(&labels(), 4), None);
}

#[test]
fn update_sets_the_labels_that_are_named() {
    let mut repository = TodoRepositoryForMemory::new(labels());
    let todo = repository.create(CreateTodo::new("a".to_string())).unwrap();
    assert_eq!(todo, entity(1, "a", false, vec![]));
    let updated = repository
        .update(1, UpdateTodo { text: None, completed: None, labels: Some(vec![2, 1]) })
        .unwrap();
    assert_eq!(
        updated,
        entity(
            1,
            "a",
            false,
            vec![Label::new(2, "work".to_string()), Label::new(1, "home".to_string())]
        )
    );
    let updated = repository
        .update(1, UpdateTodo { text: None, completed: Some(true), labels: None })
        .unwrap();
    assert_eq!(
        updated,
        entity(
            1,
            "a",
            true,
            vec![Label::new(2, "work".to_string()), Label::new(1, "home".to_string())]
        )
    );
    assert_eq!(repository.find(1).unwrap(), updated);
}

#[test]
fn update_with_an_unknown_label_changes_nothing() {
    let mut repository = TodoRepositoryForMemory::new(labels());
    let todo = repository.create(CreateTodo::new("a".to_string())).unwrap();
    match repository.update(
        1,
        UpdateTodo { text: Some("b".to_string()), completed: Some(true), labels: Some(vec![1, 7]) },
    ) {
        Err(RepositoryError::NotFound(id)) => assert_eq!(id, 7),
        other => panic!("unexpected: {:?}", other),
    }
    assert_eq!(repository.find(1).unwrap(), todo);
}

#[test]
fn update_of_a_missing_entity_is_not_found() {
    let mut repository = TodoRepositoryForMemory::new(labels());
    match repository.update(4, UpdateTodo { text: None, completed: None, labels: Some(vec![9]) }) {
        Err(RepositoryError::NotFound(id)) => assert_eq!(id, 4),
        other => panic!("unexpected: {:?}", other),
    }
}

#[test]
fn entities_are_listed_the_newest_first() {
    let mut repository = TodoRepositoryForMemory::new(vec![]);
    repository.create(CreateTodo::new("a".to_string())).unwrap();
    repository.create(CreateTodo::new("b".to_string())).unwrap();
    repository.create(CreateTodo::new("c".to_string())).unwrap();
    repository.delete(1).unwrap();
    let fourth = repository.create(CreateTodo::new("d".to_string())).unwrap();
    assert_eq!(fourth.id, 4);
    assert_eq!(
        repository.all().unwrap(),
        vec![entity(4, "d", false, vec![]), entity(3, "c", false, vec![]), entity(2, "b", false, vec![])]
    );
}

#[test]
fn an_entity_is_deleted_once() {
    let mut repository = TodoRepositoryForMemory::new(vec![]);
    let todo = repository.create(CreateTodo::new("a".to_string())).unwrap();
    assert!(repository.delete(todo.id).is_ok());
    match repository.delete(todo.id) {
        Err(RepositoryError::NotFound(id)) => assert_eq!(id, todo.id),
        other => panic!("unexpected: {:?}", other),
    }
}

fn lost() -> DriverError {
    DriverError { row_not_found: false, message: "connection reset".to_string() }
}

fn no_row() -> DriverError {
    DriverError { row_not_found: true, message: "no rows returned".to_string() }
}

#[test]
fn a_missing_row_is_not_found() {
    match after_select(5, Err(no_row())) {
        Err(RepositoryError::NotFound(id)) => assert_eq!(id, 5),
        other => panic!("unexpected: {:?}", other),
    }
    match row_for::<i32>(6, Err(no_row())) {
        Err(RepositoryError::NotFound(id)) => assert_eq!(id, 6),
        other => panic!("unexpected: {:?}", other),
    }
    match RepositoryError::from_driver(no_row(), 8) {
        RepositoryError::NotFound(id) => assert_eq!(id, 8),
        other => panic!("unexpected: {:?}", other),
    }
}

#[test]
fn another_driver_error_is_unexpected() {
    match after_select(5, Err(lost())) {
        Err(RepositoryError::Unexpected(message)) => assert_eq!(message, "connection reset"),
        other => panic!("unexpected: {:?}", other),
    }
    match after_insert(Err(no_row())) {
        Err(RepositoryError::Unexpected(message)) => assert_eq!(message, "no rows returned"),
        other => panic!("unexpected: {:?}", other),
    }
    match after_select_all(Err(lost())) {
        Err(RepositoryError::Unexpected(message)) => assert_eq!(message, "connection reset"),
        other => panic!("unexpected: {:?}", other),
    }
    match rows_or_unexpected::<i32>(Err(no_row())) {
        Err(RepositoryError::Unexpected(message)) => assert_eq!(message, "no rows returned"),
        other => panic!("unexpected: {:?}", other),
    }
    match RepositoryError::unexpected(lost()) {
        RepositoryError::Unexpected(message) => assert_eq!(message, "connection reset"),
        other => panic!("unexpected: {:?}", other),
    }
}

#[test]
fn rows_that_came_are_folded() {
    assert_eq!(after_insert(Ok(row(1, "a", false, None))).unwrap(), entity(1, "a", false, vec![]));
    assert_eq!(
        after_select(1, Ok(vec![row(1, "a", true, None)])).unwrap(),
        entity(1, "a", true, vec![])
    );
    assert_eq!(
        after_select(
            1,
            Ok(vec![row(1, "a", true, Some((2, "work"))), row(1, "a", true, Some((1, "home")))])
        )
        .unwrap(),
        entity(
            1,
            "a",
            true,
            vec![Label::new(2, "work".to_string()), Label::new(1, "home".to_string())]
        )
    );
    let plan = UpdatePlan { todo: entity(1, "b", true, vec![]), replace_labels: false };
    assert_eq!(
        after_update(1, Ok(row(1, "b", true, None)), plan).unwrap(),
        entity(1, "b", true, vec![])
    );
    let plan = UpdatePlan {
        todo: entity(1, "b", true, vec![Label::new(3, "shop".to_string())]),
        replace_labels: true,
    };
    assert_eq!(
        after_update(1, Ok(row(1, "b", true, None)), plan).unwrap(),
        entity(1, "b", true, vec![Label::new(3, "shop".to_string())])
    );
    assert_eq!(
        after_select_all(Ok(vec![row(2, "b", false, None), row(1, "a", false, None)])).unwrap(),
        vec![entity(2, "b", false, vec![]), entity(1, "a", false, vec![])]
    );
    assert_eq!(row_for::<i32>(1, Ok(42)).unwrap(), 42);
    assert_eq!(rows_or_unexpected::<i32>(Ok(42)).unwrap(), 42);
}

#[test]
fn the_update_writes_what_the_payload_carries() {
    let payload = UpdateTodo { text: None, completed: Some(true), labels: None };
    assert_eq!(
        plan_update(1, payload, Ok(vec![row(1, "a", false, Some((2, "work")))]), &vec![]).unwrap(),
        UpdatePlan {
            todo: entity(1, "a", true, vec![Label::new(2, "work".to_string())]),
            replace_labels: false
        }
    );
    let payload = UpdateTodo { text: Some("b".to_string()), completed: None, labels: None };
    assert_eq!(
        plan_update(1, payload, Ok(vec![row(1, "a", true, None)]), &labels()).unwrap(),
        UpdatePlan { todo: entity(1, "b", true, vec![]), replace_labels: false }
    );
    let payload = UpdateTodo { text: Some("b".to_string()), completed: None, labels: None };
    match plan_update(1, payload, Err(lost()), &labels()) {
        Err(RepositoryError::Unexpected(message)) => assert_eq!(message, "connection reset"),
        other => panic!("unexpected: {:?}", other),
    }
}

#[test]
fn the_update_resolves_the_labels_that_are_named() {
    let payload = UpdateTodo { text: None, completed: None, labels: Some(vec![3, 1]) };
    assert_eq!(
        plan_update(1, payload, Ok(vec![row(1, "a", false, Some((2, "work")))]), &labels())
            .unwrap(),
        UpdatePlan {
            todo: entity(
                1,
                "a",
                false,
                vec![Label::new(3, "shop".to_string()), Label::new(1, "home".to_string())]
            ),
            replace_labels: true
        }
    );
    let payload = UpdateTodo { text: None, completed: None, labels: Some(vec![]) };
    assert_eq!(
        plan_update(1, payload, Ok(vec![row(1, "a", false, Some((2, "work")))]), &labels())
            .unwrap(),
        UpdatePlan { todo: entity(1, "a", false, vec![]), replace_labels: true }
    );
}

#[test]
fn the_update_of_a_label_that_is_not_there_writes_nothing() {
    let payload = UpdateTodo { text: Some("b".to_string()), completed: None, labels: Some(vec![99]) };
    match plan_update(1, payload, Ok(vec![row(1, "a", false, None)]), &labels()) {
        Err(RepositoryError::NotFound(id)) => assert_eq!(id, 99),
        other => panic!("unexpected: {:?}", other),
    }
    let payload = UpdateTodo { text: None, completed: None, labels: Some(vec![99]) };
    match plan_update(7, payload, Ok(vec![]), &labels()) {
        Err(RepositoryError::NotFound(id)) => assert_eq!(id, 7),
        other => panic!("unexpected: {:?}", other),
    }
}

#[test]
fn no_rows_for_an_id_is_not_found() {
    match after_select(4, Ok(vec![])) {
        Err(RepositoryError::NotFound(id)) => assert_eq!(id, 4),
        other => panic!("unexpected: {:?}", other),
    }
}

#[test]
fn a_row_deleted_before_the_write_is_not_found() {
    let plan = UpdatePlan { todo: entity(3, "a", false, vec![]), replace_labels: false };
    match after_update(3, Err(no_row()), plan) {
        Err(RepositoryError::NotFound(id)) => assert_eq!(id, 3),
        other => panic!("unexpected: {:?}", other),
    }
}

#[test]
fn a_delete_that_removed_nothing_is_not_found() {
    assert!(row_removed(2, Ok(1)).is_ok());
    match row_removed(2, Ok(0)) {
        Err(RepositoryError::NotFound(id)) => assert_eq!(id, 2),
        other => panic!("unexpected: {:?}", other),
    }
    match row_removed(2, Err(lost())) {
        Err(RepositoryError::Unexpected(message)) => assert_eq!(message, "connection reset"),
        other => panic!("unexpected: {:?}", other),
    }
}

#[test]
fn the_last_entity_id_is_not_handed_out() {
    let mut repository = TodoRepositoryForMemory::starting_at(i32::MAX - 1, labels());
    let last = repository.create(CreateTodo::new("a".to_string())).unwrap();
    assert_eq!(last.id, i32::MAX - 1);
    match repository.create(CreateTodo::new("b".to_string())) {
        Err(RepositoryError::Unexpected(message)) => assert_eq!(message, "todo ids are used up"),
        other => panic!("unexpected: {:?}", other),
    }
    let mut repository = TodoRepositoryForMemory::starting_at(0, labels());
    assert_eq!(repository.create(CreateTodo::new("a".to_string())).unwrap().id, 1);
}

#[test]
fn a_wrapped_error_that_is_no_repository_error_is_unexpected() {
    match RepositoryError::or_unexpected(None, "timed out".to_string()) {
        RepositoryError::Unexpected(message) => assert_eq!(message, "timed out"),
        other => panic!("unexpected: {:?}", other),
    }
    match RepositoryError::or_unexpected(
        Some(RepositoryError::NotFound(4)),
        "NotFound, id is 4".to_string(),
    ) {
        RepositoryError::NotFound(id) => assert_eq!(id, 4),
        other => panic!("unexpected: {:?}", other),
    }
}
