use persistence_core::errors::{non_unique_value_on_index, DbError, DbResponse, DriverError,
    IsNonUnique, IsViolatingUnique, MapToNotFound, RepoError, ValidateDbResponse};

fn index_exists() -> DriverError {
    DriverError::IndexExists {
        table: "sample".to_string(),
        index: "sample_name".to_string(),
        value: "create.mp4".to_string(),
    }
}

#[test]
fn structured_index_violation_is_non_unique() {
    assert!(non_unique_value_on_index(&index_exists()));
}

#[test]
fn textual_index_violation_is_non_unique() {
    // a driver message as emitted when no structured code is available
    let e = DriverError::QueryFailure(
        "Database index `sample_name` already contains 'create.mp4', \
         with record `sample:abc123`"
            .to_string(),
    );
    assert!(non_unique_value_on_index(&e));
}

#[test]
fn unrelated_messages_are_not_non_unique() {
    let e = DriverError::QueryFailure("Database index `sample_name` was rebuilt".to_string());
    assert!(!non_unique_value_on_index(&e));
    let e = DriverError::QueryFailure("The table already contains data".to_string());
    assert!(!non_unique_value_on_index(&e));
    let e = DriverError::Other("connection reset".to_string());
    assert!(!non_unique_value_on_index(&e));
    let e = DriverError::RecordExists { table: "user".to_string(), key: "admin".to_string() };
    assert!(!non_unique_value_on_index(&e));
}

#[test]
fn db_results_classify_through_the_trait() {
    let conflicted: Result<u32, DbError> = Err(DbError::Query(index_exists()));
    assert!(conflicted.is_non_unique());
    let missing: Result<u32, DbError> = Err(DbError::NotFound);
    assert!(!missing.is_non_unique());
    let fine: Result<u32, DbError> = Ok(7);
    assert!(!fine.is_non_unique());
}

#[test]
fn repo_results_classify_through_the_trait() {
    let conflicted: Result<u32, RepoError> =
        Err(RepoError::Database(DbError::Query(index_exists())));
    assert!(conflicted.is_violating_unique());
    let missing: Result<u32, RepoError> = Err(RepoError::Database(DbError::NotFound));
    assert!(!missing.is_violating_unique());
}

#[test]
fn validate_returns_the_first_statement_error() {
    let response = DbResponse {
        errors: vec![
            (2, DriverError::Other("late".to_string())),
            (0, DriverError::Other("first".to_string())),
            (1, DriverError::Other("middle".to_string())),
        ],
    };
    let err = response.validate().unwrap_err();
    assert_eq!(err, DbError::Query(DriverError::Other("first".to_string())));
}

#[test]
fn validate_passes_a_clean_response_through() {
    let response = DbResponse { errors: vec![] };
    assert!(response.validate().is_ok());
}

#[test]
fn found_maps_empty_reads_to_not_found() {
    assert_eq!(Some(5u32).found().unwrap(), 5);
    assert_eq!(None::<u32>.found().unwrap_err(), DbError::NotFound);
}
