use todo_service::handlers::label::{
    all_label, all_label_response, create_label, create_label_response, delete_label,
    delete_label_response, CreateLabel,
};
use todo_service::handlers::todo::{
    all_todos, all_todos_response, create_todo, create_todo_response, delete_todo,
    delete_todo_response, find_todo, root, todo_response, update_todo,
};
use todo_service::handlers::{
    check_length, note_length, parse_error, report, validation_error, StatusCode, Validate,
    ValidateJson, Violation,
};
use todo_service::repositories::labels::{Label, LabelRepositoryForMemory};
use todo_service::repositories::todo::{
    CreateTodo, TodoEntity, TodoRepository, TodoRepositoryForMemory, UpdateTodo,
};
use todo_service::repositories::{
    CreateTodo as PlainCreateTodo, RepositoryError, UpdateTodo as PlainUpdateTodo,
};

fn accepted<T: Validate>(payload: T) -> ValidateJson<T> {
    match ValidateJson::from_request(Ok(payload)) {
        Ok(accepted) => accepted,
        Err((_, message)) => panic!("turned away: {}", message),
    }
}

fn rejected<T: Validate>(parsed: Result<T, String>) -> (StatusCode, String) {
    match ValidateJson::from_request(parsed) {
        Ok(_) => panic!("let through"),
        Err(rejection) => rejection,
    }
}

#[test]
fn should_return_hello_world() {
    assert_eq!(root(), "Hello, World!");
}

#[test]
fn should_created_todo() {
    let expected = TodoEntity::new(1, "should_return_created_todo".to_string());
    let mut repository = TodoRepositoryForMemory::new(vec![]);
    let payload = accepted(CreateTodo::new("should_return_created_todo".to_string()));
    let (status, todo) = create_todo(payload, &mut repository).unwrap();
    assert_eq!(status, StatusCode::Created);
    assert_eq!(expected, todo);
}

#[test]
fn should_find_todo() {
    let expected = TodoEntity::new(1, "Should_find_todo".to_string());
    let mut repository = TodoRepositoryForMemory::new(vec![]);
    repository.create(CreateTodo::new("Should_find_todo".to_string())).expect("failed create todo");
    let (status, todo) = find_todo(1, &repository).unwrap();
    assert_eq!(status, StatusCode::Okay);
    assert_eq!(expected, todo);
}

#[test]
fn should_get_all_todos() {
    let expected = TodoEntity::new(1, "should_get_all_todos".to_string());
    let mut repository = TodoRepositoryForMemory::new(vec![]);
    repository
        .create(CreateTodo::new("should_get_all_todos".to_string()))
        .expect("failed create todo");
    let (status, todo) = all_todos(&repository).unwrap();
    assert_eq!(status, StatusCode::Okay);
    assert_eq!(vec![expected], todo);
}

#[test]
fn should_update_todo() {
    let expected = TodoEntity::new(1, "before_update_todos".to_string());
    let mut repository = TodoRepositoryForMemory::new(vec![]);
    repository
        .create(CreateTodo::new("before_update_todos".to_string()))
        .expect("failed create todo");
    let payload = accepted(UpdateTodo {
        text: Some("before_update_todos".to_string()),
        completed: Some(false),
        labels: None,
    });
    let (status, todo) = update_todo(1, payload, &mut repository).unwrap();
    assert_eq!(status, StatusCode::Okay);
    assert_eq!(expected, todo);
}

#[test]
fn should_delete_todo() {
    let mut repository = TodoRepositoryForMemory::new(vec![]);
    repository
        .create(CreateTodo::new("should_delete_todos".to_string()))
        .expect("failed create todo");
    let status = delete_todo(1, &mut repository);
    assert_eq!(StatusCode::NoContent, status);
}

#[test]
fn a_todo_goes_from_create_to_gone() {
    let mut repository = TodoRepositoryForMemory::new(vec![]);
    let payload = accepted(CreateTodo::new("buy milk".to_string()));
    let (status, created) = create_todo(payload, &mut repository).unwrap();
    assert_eq!(status.as_u16(), 201);
    assert_eq!(
        created,
        TodoEntity { id: 1, text: "buy milk".to_string(), completed: false, labels: vec![] }
    );
    let (status, found) = find_todo(1, &repository).unwrap();
    assert_eq!(status.as_u16(), 200);
    assert_eq!(found, created);
    assert_eq!(delete_todo(1, &mut repository).as_u16(), 204);
    assert_eq!(find_todo(1, &repository).unwrap_err().as_u16(), 404);
    assert_eq!(delete_todo(1, &mut repository).as_u16(), 404);
}

#[test]
fn a_missing_todo_is_404() {
    let mut repository = TodoRepositoryForMemory::new(vec![]);
    assert_eq!(find_todo(1, &repository).unwrap_err(), StatusCode::NotFound);
    let payload = accepted(UpdateTodo { text: None, completed: Some(true), labels: None });
    assert_eq!(update_todo(1, payload, &mut repository).unwrap_err(), StatusCode::NotFound);
    assert_eq!(delete_todo(1, &mut repository), StatusCode::NotFound);
    assert_eq!(all_todos(&repository).unwrap(), (StatusCode::Okay, vec![]));
}

#[test]
fn an_update_with_an_unknown_label_is_404() {
    let mut repository = TodoRepositoryForMemory::new(vec![Label::new(1, "home".to_string())]);
    repository.create(CreateTodo::new("a".to_string())).unwrap();
    let payload = accepted(UpdateTodo { text: None, completed: None, labels: Some(vec![2]) });
    assert_eq!(update_todo(1, payload, &mut repository).unwrap_err(), StatusCode::NotFound);
    let payload = accepted(UpdateTodo { text: None, completed: None, labels: Some(vec![1]) });
    let (status, todo) = update_todo(1, payload, &mut repository).unwrap();
    assert_eq!(status, StatusCode::Okay);
    assert_eq!(todo.labels, vec![Label::new(1, "home".to_string())]);
}

#[test]
fn labels_are_created_listed_and_deleted() {
    let mut repository = LabelRepositoryForMemory::new();
    let payload = accepted(CreateLabel::new("x".to_string()));
    let (status, label) = create_label(payload, &mut repository).unwrap();
    assert_eq!(status, StatusCode::Created);
    assert_eq!(label, Label::new(1, "x".to_string()));
    assert_eq!(all_label(&repository).unwrap(), (StatusCode::Okay, vec![label]));
    assert_eq!(delete_label(1, &mut repository), StatusCode::NoContent);
    assert_eq!(all_label(&repository).unwrap(), (StatusCode::Okay, vec![]));
}

#[test]
fn a_second_label_of_the_name_is_409() {
    let mut repository = LabelRepositoryForMemory::new();
    create_label(accepted(CreateLabel::new("x".to_string())), &mut repository).unwrap();
    let again = create_label(accepted(CreateLabel::new("x".to_string())), &mut repository);
    let status = again.unwrap_err();
    assert_eq!(status, StatusCode::Conflict);
    assert_eq!(status.as_u16(), 409);
    assert_eq!(all_label(&repository).unwrap().1, vec![Label::new(1, "x".to_string())]);
}

#[test]
fn a_missing_label_is_404() {
    let mut repository = LabelRepositoryForMemory::new();
    assert_eq!(delete_label(3, &mut repository), StatusCode::NotFound);
    assert_eq!(delete_label(3, &mut repository).as_u16(), 404);
}

#[test]
fn a_label_store_that_is_full_is_500() {
    let mut repository = LabelRepositoryForMemory::starting_at(i32::MAX);
    let turned_down = create_label(accepted(CreateLabel::new("x".to_string())), &mut repository);
    assert_eq!(turned_down.unwrap_err(), StatusCode::InternalServerError);
}

#[test]
fn status_numbers() {
    assert_eq!(StatusCode::Okay.as_u16(), 200);
    assert_eq!(StatusCode::Created.as_u16(), 201);
    assert_eq!(StatusCode::NoContent.as_u16(), 204);
    assert_eq!(StatusCode::BadRequest.as_u16(), 400);
    assert_eq!(StatusCode::NotFound.as_u16(), 404);
    assert_eq!(StatusCode::Conflict.as_u16(), 409);
    assert_eq!(RepositoryError::NotFound(3).status(), StatusCode::NotFound);
    assert_eq!(RepositoryError::Duplicate(3).status(), StatusCode::Conflict);
    assert_eq!(
        RepositoryError::Unexpected("lost".to_string()).status(),
        StatusCode::InternalServerError
    );
    assert_eq!(StatusCode::InternalServerError.as_u16(), 500);
}

#[test]
fn an_empty_text_is_turned_away() {
    let (status, message) = rejected(Ok(CreateTodo::new("".to_string())));
    assert_eq!(status.as_u16(), 400);
    assert_eq!(message, "Validation error: [text: Can not be empty]");
}

#[test]
fn a_text_of_101_characters_is_turned_away() {
    let (status, message) = rejected(Ok(CreateTodo::new("a".repeat(101))));
    assert_eq!(status.as_u16(), 400);
    assert_eq!(message, "Validation error: [text: Over test length]");
}

#[test]
fn a_text_of_100_characters_is_let_through() {
    let payload = accepted(CreateTodo::new("a".repeat(100)));
    assert_eq!(payload.into_inner().text, "a".repeat(100));
    let payload = accepted(CreateTodo::new("a".to_string()));
    assert_eq!(payload.into_inner().text, "a");
}

#[test]
fn the_length_counts_characters_not_bytes() {
    let text = "あ".repeat(100);
    assert_eq!(text.len(), 300);
    assert!(check_length("text", &text).is_ok());
    let text = "あ".repeat(101);
    assert_eq!(
        check_length("text", &text),
        Err(Violation { field: "text", code: "length", message: "Over test length" })
    );
    assert_eq!(
        check_length("name", &String::new()),
        Err(Violation { field: "name", code: "length", message: "Can not be empty" })
    );
}

#[test]
fn the_plain_payloads_follow_the_same_rules() {
    assert!(PlainCreateTodo::new("a".repeat(100)).validate().is_ok());
    assert!(PlainCreateTodo::new("a".repeat(101)).validate().is_err());
    assert!(PlainCreateTodo::new(String::new()).validate().is_err());
    assert!(PlainUpdateTodo { text: None, completed: None }.validate().is_ok());
    assert!(PlainUpdateTodo { text: Some("a".to_string()), completed: None }.validate().is_ok());
    assert_eq!(
        PlainUpdateTodo { text: Some(String::new()), completed: Some(true) }.validate(),
        Err(vec![Violation { field: "text", code: "length", message: "Can not be empty" }])
    );
}

#[test]
fn an_update_without_text_is_let_through() {
    let payload = accepted(UpdateTodo { text: None, completed: Some(true), labels: None });
    assert_eq!(payload.into_inner().completed, Some(true));
    let (status, message) =
        rejected(Ok(UpdateTodo { text: Some("".to_string()), completed: None, labels: None }));
    assert_eq!(status, StatusCode::BadRequest);
    assert_eq!(message, "Validation error: [text: Can not be empty]");
    let (_, message) =
        rejected(Ok(UpdateTodo { text: Some("a".repeat(101)), completed: None, labels: None }));
    assert_eq!(message, "Validation error: [text: Over test length]");
}

#[test]
fn a_label_name_follows_the_rules() {
    let (status, message) = rejected(Ok(CreateLabel::new("".to_string())));
    assert_eq!(status, StatusCode::BadRequest);
    assert_eq!(message, "Validation error: [name: Can not be empty]");
    let (_, message) = rejected(Ok(CreateLabel::new("n".repeat(101))));
    assert_eq!(message, "Validation error: [name: Over test length]");
    assert_eq!(accepted(CreateLabel::new("n".repeat(100))).into_inner().name, "n".repeat(100));
}

#[test]
fn a_body_that_does_not_parse_is_turned_away() {
    let (status, message) = rejected::<CreateTodo>(Err("expected value at line 1".to_string()));
    assert_eq!(status.as_u16(), 400);
    assert_eq!(message, "Json parse error: [expected value at line 1]");
}

#[test]
fn line_breaks_in_a_message_become_commas() {
    let violation = Violation { field: "voice", code: "volume", message: "too loud\ntoo long" };
    assert_eq!(validation_error(&vec![violation]), "Validation error: [voice: too loud,too long]");
    let violation = Violation { field: "voice", code: "volume", message: "\n\n" };
    assert_eq!(validation_error(&vec![violation]), "Validation error: [voice: ,,]");
    assert_eq!(parse_error("line 1\nline 2"), "Json parse error: [line 1\nline 2]");
}

#[test]
fn responses_follow_the_outcome() {
    let todo = TodoEntity::new(1, "a".to_string());
    assert_eq!(create_todo_response(Ok(todo.clone())), Ok((StatusCode::Created, todo.clone())));
    assert_eq!(
        create_todo_response(Err(RepositoryError::Unexpected("lost".to_string()))),
        Err(StatusCode::InternalServerError)
    );
    assert_eq!(todo_response(Ok(todo.clone())), Ok((StatusCode::Okay, todo.clone())));
    assert_eq!(todo_response(Err(RepositoryError::NotFound(1))), Err(StatusCode::NotFound));
    assert_eq!(
        todo_response(Err(RepositoryError::Unexpected("lost".to_string()))),
        Err(StatusCode::InternalServerError)
    );
    assert_eq!(all_todos_response(Ok(vec![todo.clone()])), Ok((StatusCode::Okay, vec![todo])));
    assert_eq!(
        all_todos_response(Err(RepositoryError::Unexpected("lost".to_string()))),
        Err(StatusCode::InternalServerError)
    );
    assert_eq!(delete_todo_response(Ok(())), StatusCode::NoContent);
    assert_eq!(delete_todo_response(Err(RepositoryError::NotFound(1))), StatusCode::NotFound);
    assert_eq!(
        delete_todo_response(Err(RepositoryError::Unexpected("lost".to_string()))),
        StatusCode::InternalServerError
    );

    let label = Label::new(1, "x".to_string());
    assert_eq!(create_label_response(Ok(label.clone())), Ok((StatusCode::Created, label.clone())));
    assert_eq!(
        create_label_response(Err(RepositoryError::Duplicate(1))),
        Err(StatusCode::Conflict)
    );
    assert_eq!(
        create_label_response(Err(RepositoryError::Unexpected("lost".to_string()))),
        Err(StatusCode::InternalServerError)
    );
    assert_eq!(all_label_response(Ok(vec![label.clone()])), Ok((StatusCode::Okay, vec![label])));
    assert_eq!(
        all_label_response(Err(RepositoryError::Unexpected("lost".to_string()))),
        Err(StatusCode::InternalServerError)
    );
    assert_eq!(delete_label_response(Ok(())), StatusCode::NoContent);
    assert_eq!(
        delete_label_response(Err(RepositoryError::NotFound(1))),
        StatusCode::NotFound
    );
    assert_eq!(
        delete_label_response(Err(RepositoryError::Unexpected("lost".to_string()))),
        StatusCode::InternalServerError
    );
}

fn broken(field: &'static str, message: &'static str) -> Violation {
    Violation { field, code: "length", message }
}

#[test]
fn all_violations_are_told_field_by_field() {
    let violations = vec![
        broken("text", "Can not be empty"),
        broken("name", "Over test length"),
        broken("text", "No digits"),
        broken("age", "Too young"),
        broken("name", "No blanks"),
    ];
    assert_eq!(
        validation_error(&violations),
        "Validation error: [text: Can not be empty, No digits,name: Over test length, No blanks,age: Too young]"
    );
}

#[test]
fn two_violations_of_one_field_share_a_line() {
    let violations = vec![broken("text", "first"), broken("text", "second")];
    assert_eq!(validation_error(&violations), "Validation error: [text: first, second]");
}

#[test]
fn two_fields_are_joined_by_a_comma() {
    let violations = vec![broken("b", "second field"), broken("a", "first field")];
    assert_eq!(validation_error(&violations), "Validation error: [b: second field,a: first field]");
    assert_eq!(validation_error(&vec![]), "Validation error: []");
}

#[test]
fn what_was_found_is_reported() {
    let mut found = Vec::new();
    note_length(&mut found, "text", &"fine".to_string());
    assert_eq!(found, vec![]);
    note_length(&mut found, "text", &String::new());
    note_length(&mut found, "name", &"n".repeat(101));
    assert_eq!(
        found,
        vec![broken("text", "Can not be empty"), broken("name", "Over test length")]
    );
    assert_eq!(
        report(found),
        Err(vec![broken("text", "Can not be empty"), broken("name", "Over test length")])
    );
    assert_eq!(report(vec![]), Ok(()));
}

#[test]
fn a_payload_reports_its_violations() {
    assert_eq!(CreateTodo::new("a".to_string()).validate(), Ok(()));
    assert_eq!(
        CreateTodo::new(String::new()).validate(),
        Err(vec![broken("text", "Can not be empty")])
    );
    assert_eq!(
        CreateLabel::new("n".repeat(101)).validate(),
        Err(vec![broken("name", "Over test length")])
    );
    assert_eq!(
        UpdateTodo { text: Some("t".repeat(101)), completed: None, labels: None }.validate(),
        Err(vec![broken("text", "Over test length")])
    );
}
