use persistence_core::auth::{AuthError, AuthorizeRequest, AuthorizeResponse, Claims};
use persistence_core::config::AdminConfig;
use persistence_core::files::{FileStorage, FileStorageConfig};
use persistence_core::ident::{try_into_string_ids, IdConversionError, Identified, RecordKey,
    Thing, TryIntoStringId};
use persistence_core::store::{Experiment, ExperimentResult, SampleInfo};

fn text_thing(key: &str) -> Thing {
    Thing { table: "sample".to_string(), key: RecordKey::Text(key.to_string()) }
}

#[test]
fn text_identifier_converts() {
    assert_eq!(text_thing("abc").try_into_string_id().unwrap(), "abc");
}

#[test]
fn numeric_identifier_is_refused() {
    let thing = Thing { table: "sample".to_string(), key: RecordKey::Number(7) };
    assert_eq!(
        thing.try_into_string_id().unwrap_err(),
        IdConversionError::IdIsNotString
    );
    let thing = Thing { table: "sample".to_string(), key: RecordKey::Other };
    assert_eq!(
        thing.try_into_string_id().unwrap_err(),
        IdConversionError::IdIsNotString
    );
}

#[test]
fn identified_record_converts() {
    let record = Identified::new(text_thing("abc"), 41u64);
    let converted = record.try_into_string_id().unwrap();
    assert_eq!(converted.id, "abc");
    assert_eq!(converted.data, 41);
}

#[test]
fn listing_converts_or_fails_whole() {
    let listing = vec![
        Identified::new(text_thing("a"), 1u64),
        Identified::new(text_thing("b"), 2u64),
    ];
    let converted = try_into_string_ids(listing).unwrap();
    assert_eq!(converted.len(), 2);
    assert_eq!(converted[0].id, "a");
    assert_eq!(converted[1].data, 2);

    let listing = vec![
        Identified::new(text_thing("a"), 1u64),
        Identified::new(
            Thing { table: "sample".to_string(), key: RecordKey::Number(9) },
            2u64,
        ),
    ];
    assert_eq!(
        try_into_string_ids(listing).unwrap_err(),
        IdConversionError::IdIsNotString
    );
}

#[test]
fn blob_keys_use_the_trailing_path_segment() {
    let mut files = FileStorage::setup(
        &FileStorageConfig { folder: "./tmp/file_storage".to_string() },
    );
    files.create("uploads/2024/clip.mp4", vec![1, 2, 3]).unwrap();
    assert_eq!(files.get("clip.mp4").unwrap(), vec![1, 2, 3]);
    files.delete("elsewhere/clip.mp4").unwrap();
    assert!(files.get("clip.mp4").is_err());
}

#[test]
fn login_claims_last_one_day() {
    let claims = Claims::for_login(1_000, "admin".to_string());
    assert_eq!(claims.nbf, 1_000);
    assert_eq!(claims.iat, 1_000);
    assert_eq!(claims.exp, 1_000 + 86_400);
    assert_eq!(claims.user_id, 0);
    assert_eq!(claims.username, "admin");
}

#[test]
fn auth_errors_map_to_stable_outcomes() {
    let (status, message) = AuthError::TokenCreation.status_and_message();
    assert_eq!((status, message.as_str()), (500, "Token creation error"));
    let (status, message) = AuthError::InvalidToken.status_and_message();
    assert_eq!((status, message.as_str()), (400, "Invalid token"));
    let (status, message) = AuthError::InvalidCredentials.status_and_message();
    assert_eq!((status, message.as_str()), (400, "Invalid credentials"));
}

#[test]
fn request_validation_bounds_field_lengths() {
    let ok = AuthorizeRequest { username: "admin".to_string(), password: "pass".to_string() };
    assert!(ok.validate());
    let empty = AuthorizeRequest { username: "".to_string(), password: "pass".to_string() };
    assert!(!empty.validate());
    let long = AuthorizeRequest { username: "a".repeat(64), password: "pass".to_string() };
    assert!(!long.validate());

    let admin = AdminConfig { username: "root".to_string(), password: "pass".to_string() };
    assert!(admin.validate());
    let short = AdminConfig { username: "abc".to_string(), password: "pass".to_string() };
    assert!(!short.validate());

    let sample = SampleInfo { name: "x".to_string(), azimuth_bits: 0, elevation_bits: 0 };
    assert!(sample.validate());
    let experiment = Experiment { name: "".to_string(), sample_ids: vec![], is_public: true };
    assert!(!experiment.validate());
    let outcome = ExperimentResult {
        training: true,
        user: "tester".to_string(),
        sample_results: vec![],
    };
    assert!(outcome.validate());
}

#[test]
fn authorize_response_carries_the_token() {
    let response = AuthorizeResponse::new("tok".to_string());
    assert_eq!(response.token, "tok");
}
