use persistence_core::audio::AudioRepository;
use persistence_core::errors::{DbError, IsViolatingUnique, RepoError};
use persistence_core::experiment::ExperimentRepository;
use persistence_core::files::{FileStorage, FileStorageConfig};
use persistence_core::sample::SampleRepository;
use persistence_core::store::{Experiment, ExperimentResult, SampleInfo, SampleResult, Store};
use persistence_core::user::UserRepository;

fn setup() -> (Store, FileStorage) {
    let store = Store::new();
    let files = FileStorage::setup(
        &FileStorageConfig { folder: "./tmp/file_storage".to_string() },
    );
    (store, files)
}

fn sample_info(name: &str, azimuth: f32, elevation: f32) -> SampleInfo {
    SampleInfo {
        name: name.to_string(),
        azimuth_bits: azimuth.to_bits(),
        elevation_bits: elevation.to_bits(),
    }
}

fn data_bytes() -> Vec<u8> {
    vec![7, 6, 5, 4, 3, 2, 1, 0]
}

#[test]
fn sample_create() {
    let (mut store, mut files) = setup();
    let sut = SampleRepository {};
    sut.create(&mut store, &mut files, sample_info("create.mp4", 10.0, 0.0), data_bytes())
        .unwrap();
}

#[test]
fn sample_create_duplicate() {
    let (mut store, mut files) = setup();
    let sut = SampleRepository {};
    sut.create(&mut store, &mut files, sample_info("create.mp4", 10.0, 0.0), data_bytes())
        .unwrap();
    sut.create(&mut store, &mut files, sample_info("create.mp4", 10.0, 0.0), data_bytes())
        .unwrap_err();
}

#[test]
fn uniqueness_conflict_is_classified() {
    let (mut store, mut files) = setup();
    let sut = SampleRepository {};
    sut.create(&mut store, &mut files, sample_info("a.mp4", 10.0, 0.0), data_bytes())
        .unwrap();
    let second = sut.create(
        &mut store,
        &mut files,
        sample_info("a.mp4", 1.0, 2.0),
        vec![9, 9],
    );
    assert!(second.is_violating_unique());
    assert_eq!(sut.infos(&store).unwrap().len(), 1);
}

#[test]
fn sample_all_infos() {
    let (mut store, mut files) = setup();
    let sut = SampleRepository {};
    sut.create(&mut store, &mut files, sample_info("all_infos1.mp4", 10.0, 0.0), data_bytes())
        .unwrap();
    sut.create(
        &mut store,
        &mut files,
        sample_info("all_infos2.mp4", 0.0, 10.0),
        vec![15, 14, 13, 12, 11, 10, 9, 8],
    )
    .unwrap();
    let samples = sut.infos(&store).unwrap();
    assert_eq!(samples.len(), 2);
    assert_eq!(samples[0].data.name, "all_infos1.mp4");
    assert_eq!(f32::from_bits(samples[0].data.azimuth_bits), 10.0);
}

#[test]
fn sample_data() {
    let (mut store, mut files) = setup();
    let sut = SampleRepository {};
    let sample = sut
        .create(&mut store, &mut files, sample_info("data.mp4", 10.0, 0.0), data_bytes())
        .unwrap();
    let result_data = sut.data(&files, sample.id).unwrap();
    assert_eq!(result_data, data_bytes());
}

#[test]
fn sample_delete() {
    let (mut store, mut files) = setup();
    let sut = SampleRepository {};
    let sample = sut
        .create(&mut store, &mut files, sample_info("delete.mp4", 10.0, 0.0), data_bytes())
        .unwrap();
    assert!(sut.delete(&mut store, &mut files, sample.id).unwrap());
    assert_eq!(sut.infos(&store).unwrap().len(), 0);
}

#[test]
fn delete_fail_attached_to_experiment() {
    let (mut store, mut files) = setup();
    let sut = SampleRepository {};
    let experiment_repo = ExperimentRepository {};
    let sample = sut
        .create(&mut store, &mut files, sample_info("delete.mp4", 10.0, 0.0), data_bytes())
        .unwrap();
    let experiment = Experiment {
        name: "exp-1".to_string(),
        sample_ids: vec![sample.id.clone()],
        is_public: false,
    };
    experiment_repo.create(&mut store, experiment).unwrap();
    let result = sut.delete(&mut store, &mut files, sample.id);
    assert_eq!(result.unwrap(), false);
}

#[test]
fn protected_delete_lifts_with_the_relation() {
    let (mut store, mut files) = setup();
    let samples = SampleRepository {};
    let experiments = ExperimentRepository {};
    let audio = AudioRepository {};
    let sample = samples
        .create(&mut store, &mut files, sample_info("s.mp4", 10.0, 0.0), data_bytes())
        .unwrap();
    let experiment = experiments
        .create(
            &mut store,
            Experiment {
                name: "exp-1".to_string(),
                sample_ids: vec![sample.id.clone()],
                is_public: false,
            },
        )
        .unwrap();
    // linked: deletion refused, the sample can still be read
    assert_eq!(samples.delete(&mut store, &mut files, sample.id.clone()).unwrap(), false);
    audio.info(&store, sample.id.clone()).unwrap();
    // the relation goes with the experiment; deletion then succeeds
    experiments.delete(&mut store, experiment.id).unwrap();
    assert_eq!(samples.delete(&mut store, &mut files, sample.id.clone()).unwrap(), true);
    let missing = audio.info(&store, sample.id).unwrap_err();
    assert!(matches!(missing, RepoError::Database(DbError::NotFound)));
}

#[test]
fn experiment_create() {
    let (mut store, mut files) = setup();
    let samples = SampleRepository {};
    let sut = ExperimentRepository {};
    let sample = samples
        .create(&mut store, &mut files, sample_info("exp-sample.mp4", 10.0, 0.0), data_bytes())
        .unwrap();
    let experiment = sut
        .create(
            &mut store,
            Experiment {
                name: "exp-1".to_string(),
                sample_ids: vec![sample.id],
                is_public: false,
            },
        )
        .unwrap();
    assert_eq!(experiment.data.sample_ids.len(), 1);
}

#[test]
fn experiment_create_non_existing_audio() {
    let (mut store, _) = setup();
    let sut = ExperimentRepository {};
    let experiment = Experiment {
        name: "exp-1".to_string(),
        sample_ids: vec!["aaa".to_string()],
        is_public: false,
    };
    sut.create(&mut store, experiment).unwrap_err();
}

#[test]
fn atomic_create_persists_nothing_on_failure() {
    let (mut store, mut files) = setup();
    let samples = SampleRepository {};
    let sut = ExperimentRepository {};
    let sample = samples
        .create(&mut store, &mut files, sample_info("s.mp4", 10.0, 0.0), data_bytes())
        .unwrap();
    let before = sut.infos(&store).unwrap().len();
    // one of the two relation targets does not exist
    sut.create(
        &mut store,
        Experiment {
            name: "exp-1".to_string(),
            sample_ids: vec![sample.id.clone(), "aaa".to_string()],
            is_public: false,
        },
    )
    .unwrap_err();
    assert_eq!(sut.infos(&store).unwrap().len(), before);
    // no edge persisted either: the sample is not protected
    assert_eq!(samples.delete(&mut store, &mut files, sample.id).unwrap(), true);
}

#[test]
fn experiment_info() {
    let (mut store, mut files) = setup();
    let samples = SampleRepository {};
    let sut = ExperimentRepository {};
    let sample = samples
        .create(&mut store, &mut files, sample_info("info.mp4", 10.0, 0.0), data_bytes())
        .unwrap();
    let experiment = sut
        .create(
            &mut store,
            Experiment {
                name: "exp-1".to_string(),
                sample_ids: vec![sample.id],
                is_public: false,
            },
        )
        .unwrap();
    sut.info(&store, experiment.id).unwrap();
}

#[test]
fn experiment_infos() {
    let (mut store, mut files) = setup();
    let samples = SampleRepository {};
    let sut = ExperimentRepository {};
    let sample = samples
        .create(&mut store, &mut files, sample_info("infos.mp4", 10.0, 0.0), data_bytes())
        .unwrap();
    sut.create(
        &mut store,
        Experiment {
            name: "exp-1".to_string(),
            sample_ids: vec![sample.id.clone()],
            is_public: true,
        },
    )
    .unwrap();
    sut.create(
        &mut store,
        Experiment {
            name: "exp-2".to_string(),
            sample_ids: vec![sample.id],
            is_public: true,
        },
    )
    .unwrap();
    let result = sut.public_infos(&store).unwrap();
    assert_eq!(result.len(), 2);
    assert_eq!(result[0].data.sample_ids.len(), 1);
    assert_eq!(result[1].data.sample_ids.len(), 1);
}

#[test]
fn private_experiments_stay_out_of_public_listing() {
    let (mut store, _) = setup();
    let sut = ExperimentRepository {};
    sut.create(
        &mut store,
        Experiment { name: "hidden".to_string(), sample_ids: vec![], is_public: false },
    )
    .unwrap();
    assert_eq!(sut.public_infos(&store).unwrap().len(), 0);
    assert_eq!(sut.infos(&store).unwrap().len(), 1);
}

#[test]
fn experiment_delete() {
    let (mut store, mut files) = setup();
    let samples = SampleRepository {};
    let sut = ExperimentRepository {};
    let sample = samples
        .create(&mut store, &mut files, sample_info("del.mp4", 10.0, 0.0), data_bytes())
        .unwrap();
    let experiment = sut
        .create(
            &mut store,
            Experiment {
                name: "exp-1".to_string(),
                sample_ids: vec![sample.id],
                is_public: false,
            },
        )
        .unwrap();
    sut.delete(&mut store, experiment.id.clone()).unwrap();
    let missing = sut.info(&store, experiment.id).unwrap_err();
    assert!(matches!(missing, RepoError::Database(DbError::NotFound)));
}

#[test]
fn experiment_create_result() {
    let (mut store, mut files) = setup();
    let samples = SampleRepository {};
    let sut = ExperimentRepository {};
    let sample = samples
        .create(&mut store, &mut files, sample_info("res.mp4", 10.0, 0.0), data_bytes())
        .unwrap();
    let experiment = sut
        .create(
            &mut store,
            Experiment {
                name: "exp-1".to_string(),
                sample_ids: vec![sample.id.clone()],
                is_public: false,
            },
        )
        .unwrap();
    let result = ExperimentResult {
        training: false,
        user: String::new(),
        sample_results: vec![SampleResult {
            sample_id: sample.id,
            azimuth_bits: 17.0f32.to_bits(),
            elevation_bits: 9.3f32.to_bits(),
        }],
    };
    let result = sut.create_result(&mut store, experiment.id, result).unwrap();
    assert_eq!(result.data.sample_results.len(), 1);
}

#[test]
fn result_for_unlinked_sample_persists_nothing() {
    let (mut store, _) = setup();
    let sut = ExperimentRepository {};
    let experiment = sut
        .create(
            &mut store,
            Experiment { name: "exp-1".to_string(), sample_ids: vec![], is_public: false },
        )
        .unwrap();
    let outcome = ExperimentResult {
        training: false,
        user: String::new(),
        sample_results: vec![SampleResult {
            sample_id: "aaa".to_string(),
            azimuth_bits: 0,
            elevation_bits: 0,
        }],
    };
    sut.create_result(&mut store, experiment.id.clone(), outcome).unwrap_err();
    assert_eq!(sut.results(&store, experiment.id).unwrap().len(), 0);
}

#[test]
fn experiment_results() {
    let (mut store, mut files) = setup();
    let samples = SampleRepository {};
    let sut = ExperimentRepository {};
    let sample = samples
        .create(&mut store, &mut files, sample_info("results.mp4", 10.0, 0.0), data_bytes())
        .unwrap();
    let experiment = sut
        .create(
            &mut store,
            Experiment {
                name: "exp-1".to_string(),
                sample_ids: vec![sample.id.clone()],
                is_public: false,
            },
        )
        .unwrap();
    let first = ExperimentResult {
        training: false,
        user: String::new(),
        sample_results: vec![SampleResult {
            sample_id: sample.id.clone(),
            azimuth_bits: 17.0f32.to_bits(),
            elevation_bits: 9.3f32.to_bits(),
        }],
    };
    sut.create_result(&mut store, experiment.id.clone(), first).unwrap();
    let second = ExperimentResult {
        training: false,
        user: String::new(),
        sample_results: vec![SampleResult {
            sample_id: sample.id.clone(),
            azimuth_bits: 10.3f32.to_bits(),
            elevation_bits: 1.5f32.to_bits(),
        }],
    };
    sut.create_result(&mut store, experiment.id.clone(), second).unwrap();
    let result = sut.results(&store, experiment.id).unwrap();
    assert_eq!(result.len(), 2);
    assert_eq!(result[0].data.sample_results.len(), 1);
    assert_eq!(result[1].data.sample_results.len(), 1);
    assert_eq!(result[0].data.sample_results[0].sample_id, sample.id);
}

#[test]
fn empty_listing_is_no_error() {
    let (store, _) = setup();
    assert_eq!(SampleRepository {}.infos(&store).unwrap().len(), 0);
    assert_eq!(ExperimentRepository {}.infos(&store).unwrap().len(), 0);
    assert_eq!(
        ExperimentRepository {}.results(&store, "nowhere".to_string()).unwrap().len(),
        0
    );
}

#[test]
fn missing_single_row_is_not_found() {
    let (store, _) = setup();
    let missing = AudioRepository {}.info(&store, "nope".to_string()).unwrap_err();
    assert!(matches!(missing, RepoError::Database(DbError::NotFound)));
    let missing = ExperimentRepository {}.info(&store, "nope".to_string()).unwrap_err();
    assert!(matches!(missing, RepoError::Database(DbError::NotFound)));
}

#[test]
fn user_try_create() {
    let (mut store, _) = setup();
    let sut = UserRepository::new();
    sut.try_create(&mut store, "admin", "admin").unwrap();
}

#[test]
fn user_try_create_twice() {
    let (mut store, _) = setup();
    let sut = UserRepository::new();
    sut.try_create(&mut store, "admin", "admin").unwrap();
    sut.try_create(&mut store, "admin2", "admin2").unwrap_err();
}

#[test]
fn user_is_admin() {
    let (mut store, _) = setup();
    let sut = UserRepository::new();
    sut.try_create(&mut store, "admin", "admin").unwrap();
    let result = sut.is_admin(&store, "admin", "admin").unwrap();
    assert!(result);
}

#[test]
fn user_is_not_admin() {
    let (mut store, _) = setup();
    let sut = UserRepository::new();
    sut.try_create(&mut store, "admin", "admin").unwrap();
    let result = sut.is_admin(&store, "admin2", "admin2").unwrap();
    assert!(!result);
}

#[test]
fn audio_create() {
    let (mut store, mut files) = setup();
    let sut = AudioRepository {};
    sut.create(&mut store, &mut files, sample_info("create.mp4", 10.0, 0.0), data_bytes())
        .unwrap();
}

#[test]
fn audio_create_duplicate() {
    let (mut store, mut files) = setup();
    let sut = AudioRepository {};
    sut.create(&mut store, &mut files, sample_info("create.mp4", 10.0, 0.0), data_bytes())
        .unwrap();
    sut.create(&mut store, &mut files, sample_info("create.mp4", 10.0, 0.0), data_bytes())
        .unwrap_err();
}

#[test]
fn audio_all_infos() {
    let (mut store, mut files) = setup();
    let sut = AudioRepository {};
    sut.create(&mut store, &mut files, sample_info("all_infos1.mp4", 10.0, 0.0), data_bytes())
        .unwrap();
    sut.create(
        &mut store,
        &mut files,
        sample_info("all_infos2.mp4", 0.0, 10.0),
        vec![15, 14, 13, 12, 11, 10, 9, 8],
    )
    .unwrap();
    let samples = sut.infos(&store).unwrap();
    assert_eq!(samples.len(), 2);
}

#[test]
fn audio_info() {
    let (mut store, mut files) = setup();
    let sut = AudioRepository {};
    let sample = sut
        .create(&mut store, &mut files, sample_info("info.mp4", 10.0, 0.0), data_bytes())
        .unwrap();
    let result = sut.info(&store, sample.id.clone()).unwrap();
    assert_eq!(result.id, sample.id);
    assert_eq!(result.data.name, sample.data.name);
    assert_eq!(result.data.azimuth_bits, sample.data.azimuth_bits);
    assert_eq!(result.data.elevation_bits, sample.data.elevation_bits);
}

#[test]
fn audio_data() {
    let (mut store, mut files) = setup();
    let sut = AudioRepository {};
    let sample = sut
        .create(&mut store, &mut files, sample_info("data.mp4", 10.0, 0.0), data_bytes())
        .unwrap();
    let result_data = sut.data(&files, sample.id).unwrap();
    assert_eq!(result_data, data_bytes());
}

#[test]
fn audio_delete() {
    let (mut store, mut files) = setup();
    let sut = AudioRepository {};
    let sample = sut
        .create(&mut store, &mut files, sample_info("delete.mp4", 10.0, 0.0), data_bytes())
        .unwrap();
    sut.delete(&mut store, &mut files, sample.id).unwrap();
    assert_eq!(sut.infos(&store).unwrap().len(), 0);
}

#[test]
fn identifiers_are_assigned_in_creation_order() {
    let (mut store, mut files) = setup();
    let sut = SampleRepository {};
    let first = sut
        .create(&mut store, &mut files, sample_info("first.mp4", 1.0, 2.0), vec![1])
        .unwrap();
    let second = sut
        .create(&mut store, &mut files, sample_info("second.mp4", 3.0, 4.0), vec![2])
        .unwrap();
    assert_eq!(first.id, "0");
    assert_eq!(second.id, "1");
    assert_ne!(first.id, second.id);
}
