use persistence_core::digest::content_hash;
use persistence_core::migrations::{build_migrations, Migration, MigrationError, Migrator,
    MigratorConfig};
use persistence_core::user::UserRepository;
use sha3::{Digest, Keccak256, Sha3_256};

fn entries(list: &[(&str, &str)]) -> Vec<(String, String)> {
    list.iter().map(|(id, q)| (id.to_string(), q.to_string())).collect()
}

fn config() -> MigratorConfig {
    MigratorConfig { directory: "./migrations".to_string() }
}

#[test]
fn content_hash_matches_driver_crates() {
    let text = "DEFINE TABLE sample;";
    let expected = hex::encode(Sha3_256::digest(text.as_bytes()));
    assert_eq!(content_hash(text), expected);
    assert_eq!(content_hash(text).len(), 64);
    assert_ne!(content_hash(text), text);
}

#[test]
fn content_hash_known_vector() {
    assert_eq!(
        content_hash(""),
        "a7ffc6f8bf1ed76651c14756a061d662f580ff4de43b49fa82d80a4b80f8434a"
    );
}

#[test]
fn password_hash_matches_driver_crates() {
    let expected = hex::encode(Keccak256::digest("admin".as_bytes()));
    assert_eq!(UserRepository::hash_password("admin"), expected);
    assert_eq!(UserRepository::hash_password("admin").len(), 64);
    assert_ne!(UserRepository::hash_password("admin"), "admin");
}

#[test]
fn build_sorts_by_identifier() {
    let files = build_migrations(entries(&[
        ("002_b", "DEFINE TABLE b;"),
        ("001_a", "DEFINE TABLE a;"),
        ("003_c", "DEFINE TABLE c;"),
    ]));
    let ids: Vec<&str> = files.iter().map(|m| m.id.as_str()).collect();
    assert_eq!(ids, vec!["001_a", "002_b", "003_c"]);
    assert_eq!(files[0].query, "DEFINE TABLE a;");
    assert_eq!(files[0].hash, content_hash("DEFINE TABLE a;"));
}

#[test]
fn ordering_applies_only_the_suffix() {
    let files = build_migrations(entries(&[
        ("001_a", "DEFINE TABLE a;"),
        ("002_b", "DEFINE TABLE b;"),
        ("003_c", "DEFINE TABLE c;"),
    ]));
    let cfg = config();
    let migrator = Migrator::new(&cfg);
    // a ledger holding the first two migrations, read out of order
    let mut ledger = Vec::new();
    migrator
        .migrate(
            &mut ledger,
            &build_migrations(entries(&[
                ("002_b", "DEFINE TABLE b;"),
                ("001_a", "DEFINE TABLE a;"),
            ])),
            7,
        )
        .unwrap();
    assert_eq!(ledger.len(), 2);
    let applied = migrator.migrate(&mut ledger, &files, 8).unwrap();
    assert_eq!(applied, 1);
    assert_eq!(ledger.len(), 3);
    assert_eq!(ledger[2].id, "003_c");
    assert_eq!(ledger[2].applied_at, 8);
    assert_eq!(ledger[2].hash, content_hash("DEFINE TABLE c;"));
}

#[test]
fn runner_is_idempotent() {
    let files = build_migrations(entries(&[
        ("001_a", "DEFINE TABLE a;"),
        ("002_b", "DEFINE TABLE b;"),
    ]));
    let cfg = config();
    let migrator = Migrator::new(&cfg);
    let mut ledger = Vec::new();
    let first = migrator.migrate(&mut ledger, &files, 5).unwrap();
    assert_eq!(first, 2);
    let before: Vec<(String, u64, String)> = ledger
        .iter()
        .map(|row| (row.id.clone(), row.applied_at, row.hash.clone()))
        .collect();
    let second = migrator.migrate(&mut ledger, &files, 9).unwrap();
    assert_eq!(second, 0);
    let after: Vec<(String, u64, String)> = ledger
        .iter()
        .map(|row| (row.id.clone(), row.applied_at, row.hash.clone()))
        .collect();
    assert_eq!(before, after);
}

#[test]
fn drift_is_detected_and_nothing_applies() {
    let cfg = config();
    let migrator = Migrator::new(&cfg);
    let mut ledger = Vec::new();
    migrator
        .migrate(
            &mut ledger,
            &build_migrations(entries(&[("001_a", "DEFINE TABLE a;")])),
            1,
        )
        .unwrap();
    // the applied file's content was edited afterwards
    let edited = build_migrations(entries(&[
        ("001_a", "DEFINE TABLE a TYPE ANY;"),
        ("002_b", "DEFINE TABLE b;"),
    ]));
    let err = migrator.migrate(&mut ledger, &edited, 2).unwrap_err();
    assert_eq!(err, MigrationError::Mismatch);
    assert_eq!(ledger.len(), 1);
}

#[test]
fn renamed_file_is_drift() {
    let cfg = config();
    let migrator = Migrator::new(&cfg);
    let mut ledger = Vec::new();
    migrator
        .migrate(
            &mut ledger,
            &build_migrations(entries(&[("001_a", "DEFINE TABLE a;")])),
            1,
        )
        .unwrap();
    let renamed = build_migrations(entries(&[("001_z", "DEFINE TABLE a;")]));
    let err = migrator.migrate(&mut ledger, &renamed, 2).unwrap_err();
    assert_eq!(err, MigrationError::Mismatch);
}

#[test]
fn more_ledger_rows_than_files_is_drift() {
    let cfg = config();
    let migrator = Migrator::new(&cfg);
    let mut ledger = Vec::new();
    migrator
        .migrate(
            &mut ledger,
            &build_migrations(entries(&[
                ("001_a", "DEFINE TABLE a;"),
                ("002_b", "DEFINE TABLE b;"),
            ])),
            1,
        )
        .unwrap();
    let fewer = build_migrations(entries(&[("001_a", "DEFINE TABLE a;")]));
    let err = migrator.migrate(&mut ledger, &fewer, 2).unwrap_err();
    assert_eq!(err, MigrationError::Mismatch);
    assert_eq!(ledger.len(), 2);
}

#[test]
fn statement_wraps_migration_in_one_transaction() {
    let m = Migration {
        id: "001_a".to_string(),
        query: "DEFINE TABLE a;".to_string(),
        hash: content_hash("DEFINE TABLE a;"),
    };
    let statement = Migrator::apply_migration_statement(&m);
    assert_eq!(
        statement,
        "BEGIN TRANSACTION;\nDEFINE TABLE a;\nINSERT INTO migrations (id, applied_at, hash) \
         VALUES (type::thing(migrations, $mig_id), time::now(), $mig_hash);\nCOMMIT \
         TRANSACTION;\n"
    );
}
