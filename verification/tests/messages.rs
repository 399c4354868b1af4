use todo_service::decimal::{push_decimal, push_decimal_nat};
use todo_service::repositories::RepositoryError;

#[test]
fn errors_in_words() {
    assert_eq!(RepositoryError::NotFound(1).message(), "NotFound, id is 1");
    assert_eq!(RepositoryError::NotFound(-17).message(), "NotFound, id is -17");
    assert_eq!(RepositoryError::Duplicate(120).message(), "Duplicate data, id is 120");
    assert_eq!(
        RepositoryError::Unexpected("connection reset".to_string()).message(),
        "Unexpected Error: [connection reset]"
    );
}

#[test]
fn numbers_in_decimal_digits() {
    for n in [0, 1, 9, 10, 11, 99, 100, 101, 12345, i32::MAX, -1, -10, -2147483647, i32::MIN] {
        let mut text = String::from("n=");
        push_decimal(&mut text, n);
        assert_eq!(text, format!("n={}", n));
    }
    for n in [0u32, 7, 10, 4294967295] {
        let mut text = String::new();
        push_decimal_nat(&mut text, n);
        assert_eq!(text, format!("{}", n));
    }
}
