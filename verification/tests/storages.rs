use ava_admin::storages::backend::{
    FileObjectStorage, FileStorageError, ObjectStorageError, StorageBackend,
};
use ava_admin::storages::error::StorageError;
use ava_admin::storages::model::{
    S3Credentials, StorageBackendConfig, StorageBackendInput, StorageDriver, StorageInput,
    StorageRecord, StorageView, StorageBackendView,
};
use ava_admin::storages::service::{
    config_from_input, config_from_record, credentials, default_change, delete_check,
    enable_change, merge_secret, optional_owned, update_config, validate_input,
};

fn credentials_pair() -> S3Credentials {
    S3Credentials {
        access_key: "access-key".to_string(),
        secret_key: "secret-key".to_string(),
    }
}

fn s3_config(bucket: &str, region: &str, public_base_url: &str, credentials: Option<S3Credentials>) -> StorageBackendConfig {
    StorageBackendConfig::S3 {
        root: None,
        bucket: bucket.to_string(),
        region: region.to_string(),
        endpoint: None,
        public_base_url: public_base_url.to_string(),
        credentials,
        virtual_host_style: false,
    }
}

#[test]
fn storage_unsupported_driver_is_rejected() {
    let error = "azure".parse::<StorageDriver>();
    assert!(error.is_err());
}

#[test]
fn storage_s3_requires_bucket_and_public_url() {
    let config = s3_config("", "", "", None);

    let error = FileObjectStorage::from_s3_config(&config)
        .err()
        .expect("missing S3 settings should fail during startup");
    assert!(matches!(error, FileStorageError::Missing("bucket", "s3")));
}

#[test]
fn storage_s3_requires_an_http_public_url() {
    let config = s3_config("files", "us-east-1", "cdn.example.test", None);

    let error = FileObjectStorage::from_s3_config(&config)
        .err()
        .expect("invalid S3 public URLs should fail during startup");
    assert!(matches!(error, FileStorageError::InvalidPublicBaseUrl));
}

#[test]
fn storage_s3_public_urls_are_derived_from_the_configured_base() {
    let config = s3_config("files", "us-east-1", "https://cdn.example.test/assets/", None);
    let storage = FileObjectStorage::from_s3_config(&config)
        .ok()
        .expect("valid S3 configuration should construct an adapter");

    assert_eq!(
        storage.public_url("report.pdf"),
        "https://cdn.example.test/assets/report.pdf"
    );
    assert_eq!(
        storage.managed_object("https://cdn.example.test/assets/report.pdf"),
        Some("report.pdf".to_string())
    );
}

#[test]
fn backend_unsupported_driver_is_rejected() {
    let error = "azure".parse::<StorageDriver>();
    assert!(error.is_err());
}

#[test]
fn backend_s3_requires_bucket_and_public_url() {
    let config = s3_config("", "", "", Some(credentials_pair()));

    let error = StorageBackend::from_s3_config(&config)
        .err()
        .expect("missing S3 settings should fail during startup");
    assert!(matches!(error, ObjectStorageError::Missing("bucket", "s3")));
}

#[test]
fn backend_s3_requires_an_http_public_url() {
    let config = s3_config("files", "us-east-1", "cdn.example.test", Some(credentials_pair()));

    let error = StorageBackend::from_s3_config(&config)
        .err()
        .expect("invalid S3 public URLs should fail during startup");
    assert!(matches!(error, ObjectStorageError::InvalidPublicBaseUrl));
}

#[test]
fn backend_s3_public_urls_are_derived_from_the_configured_base() {
    let config = s3_config(
        "files",
        "us-east-1",
        "https://cdn.example.test/assets/",
        Some(credentials_pair()),
    );
    let storage = StorageBackend::from_s3_config(&config)
        .ok()
        .expect("valid S3 configuration should construct an adapter");

    assert_eq!(
        storage.public_url("report.pdf"),
        "https://cdn.example.test/assets/report.pdf"
    );
}

#[test]
fn drivers_are_read_trimmed_and_case_insensitively() {
    assert!(matches!(" S3 ".parse::<StorageDriver>(), Ok(StorageDriver::S3)));
    assert!(matches!("Local".parse::<StorageDriver>(), Ok(StorageDriver::Local)));
    assert_eq!(StorageDriver::S3.as_str(), "s3");
    assert_eq!(StorageDriver::Local.as_str(), "local");
    match "azure".parse::<StorageDriver>() {
        Err(StorageError::InvalidConfiguration(ObjectStorageError::UnsupportedDriver(name))) => {
            assert_eq!(name, "azure")
        }
        _ => panic!("an unsupported driver names the driver"),
    }
}

#[test]
fn missing_region_and_local_root_are_reported() {
    let config = s3_config("files", " ", "https://cdn", None);
    assert!(matches!(
        StorageBackend::validate_config(&config),
        Err(ObjectStorageError::Missing("region", "s3"))
    ));
    let local = StorageBackendConfig::Local { root: "  ".to_string() };
    assert!(matches!(
        StorageBackend::validate_config(&local),
        Err(ObjectStorageError::Missing("root", "local"))
    ));
    let local = StorageBackendConfig::Local { root: "uploads".to_string() };
    assert!(StorageBackend::validate_config(&local).is_ok());
}

#[test]
fn managed_objects_are_single_names_under_the_base() {
    let config = s3_config("files", "us-east-1", "https://cdn.example.test", None);
    let storage = StorageBackend::from_s3_config(&config).ok().unwrap();
    assert_eq!(storage.managed_object("https://cdn.example.test/a/b.pdf"), None);
    assert_eq!(storage.managed_object("https://cdn.example.test/"), None);
    assert_eq!(storage.managed_object("https://other.test/b.pdf"), None);
    assert!(!storage.is_local());
}

#[test]
fn same_location_ignores_credentials_but_not_the_bucket() {
    let a = s3_config("files", "us-east-1", "https://cdn", Some(credentials_pair()));
    let b = s3_config("files", "us-east-1", "https://cdn", None);
    let c = s3_config("other", "us-east-1", "https://cdn", None);
    assert!(a.same_location(&b));
    assert!(b.same_location(&a));
    assert!(a.same_location(&a));
    assert!(!a.same_location(&c));
    let local = StorageBackendConfig::Local { root: "x".to_string() };
    assert!(!local.same_location(&a));
}

fn input(name: &str, code: &str, description: &str, backend: StorageBackendInput) -> StorageInput {
    StorageInput {
        name: name.to_string(),
        code: code.to_string(),
        backend,
        enabled: true,
        sort: 1,
        description: description.to_string(),
    }
}

fn local_input(root: &str) -> StorageBackendInput {
    StorageBackendInput::Local { root: root.to_string() }
}

#[test]
fn storage_input_rules() {
    assert!(validate_input(&input("Main", "main_1", "", local_input("/data"))).is_ok());
    assert!(matches!(
        validate_input(&input("  ", "main", "", local_input("/data"))),
        Err(StorageError::InvalidInput("name must contain 1 to 100 characters"))
    ));
    assert!(matches!(
        validate_input(&input(&"n".repeat(101), "main", "", local_input("/data"))),
        Err(StorageError::InvalidInput(_))
    ));
    assert!(matches!(
        validate_input(&input("Main", "1main", "", local_input("/data"))),
        Err(StorageError::InvalidInput(
            "code must start with a letter and contain 2 to 30 letters, digits, or underscores"
        ))
    ));
    assert!(validate_input(&input("Main", "m", "", local_input("/data"))).is_err());
    assert!(validate_input(&input("Main", "ma-in", "", local_input("/data"))).is_err());
    assert!(matches!(
        validate_input(&input("Main", "main", &"d".repeat(201), local_input("/data"))),
        Err(StorageError::InvalidInput("description must not exceed 200 characters"))
    ));
    assert!(validate_input(&input("Main", "main", &"d".repeat(200), local_input("/data"))).is_ok());
}

#[test]
fn secrets_merge_and_credentials_pair_up() {
    assert_eq!(merge_secret(Some(" new "), Some("old")), Some("new".to_string()));
    assert_eq!(merge_secret(Some("  "), Some("old")), Some("old".to_string()));
    assert_eq!(merge_secret(None, None), None);
    assert_eq!(optional_owned(Some(" x ")), Some("x".to_string()));
    assert_eq!(optional_owned(Some("   ")), None);
    assert!(credentials(Some("a".to_string()), Some("b".to_string())).is_ok());
    assert!(matches!(
        credentials(None, Some(" ".to_string())),
        Err(StorageError::InvalidConfiguration(ObjectStorageError::MissingCredentials))
    ));
    assert!(matches!(
        credentials(Some("a".to_string()), None),
        Err(StorageError::InvalidConfiguration(ObjectStorageError::IncompleteCredentials))
    ));
}

fn s3_record() -> StorageRecord {
    StorageRecord {
        id: 7,
        name: "S3".to_string(),
        code: "s3_main".to_string(),
        driver: "s3".to_string(),
        root: Some(" /files/ ".to_string()),
        bucket: Some(" files ".to_string()),
        region: Some("us-east-1".to_string()),
        endpoint: None,
        public_base_url: Some("https://cdn/".to_string()),
        access_key: Some("a".to_string()),
        secret_key: Some("b".to_string()),
        virtual_host_style: false,
        enabled: true,
        is_default: false,
        sort: 3,
        description: String::new(),
        created_at: "2024-01-01T00:00:00Z".to_string(),
        updated_at: "2024-01-02T00:00:00Z".to_string(),
    }
}

#[test]
fn stored_rows_read_as_configurations_and_views() {
    match config_from_record(&s3_record()) {
        Ok(StorageBackendConfig::S3 { root, bucket, public_base_url, credentials, .. }) => {
            assert_eq!(root, Some("/files/".to_string()));
            assert_eq!(bucket, "files");
            assert_eq!(public_base_url, "https://cdn");
            assert!(credentials.is_some());
        }
        _ => panic!("an S3 row reads as an S3 configuration"),
    }
    let view = StorageView::from_record(&s3_record()).unwrap();
    match view.backend {
        StorageBackendView::S3 { has_access_key, has_secret_key, bucket, .. } => {
            assert!(has_access_key && has_secret_key);
            assert_eq!(bucket, " files ");
        }
        _ => panic!("an S3 row shows as S3"),
    }
    let mut bad = s3_record();
    bad.driver = "ftp".to_string();
    assert!(StorageView::from_record(&bad).is_err());
}

#[test]
fn submitted_keys_fall_back_to_the_stored_ones() {
    let payload = input(
        "S3",
        "s3_main",
        "",
        StorageBackendInput::S3 {
            root: None,
            bucket: "files".to_string(),
            region: "us-east-1".to_string(),
            endpoint: Some(" ".to_string()),
            public_base_url: " https://cdn/ ".to_string(),
            access_key: None,
            secret_key: Some(" ".to_string()),
            virtual_host_style: true,
        },
    );
    let record = s3_record();
    match config_from_input(&payload, Some(&record)) {
        Ok(StorageBackendConfig::S3 { credentials: Some(c), endpoint, public_base_url, .. }) => {
            assert_eq!(c.access_key, "a");
            assert_eq!(c.secret_key, "b");
            assert_eq!(endpoint, None);
            assert_eq!(public_base_url, "https://cdn");
        }
        _ => panic!("keys are kept"),
    }
    assert!(config_from_input(&payload, None).is_err());
}

#[test]
fn updates_keep_identity_and_location() {
    let record = s3_record();
    let same = input(
        "Renamed",
        "s3_main",
        "",
        StorageBackendInput::S3 {
            root: Some("/files/".to_string()),
            bucket: "files".to_string(),
            region: "us-east-1".to_string(),
            endpoint: None,
            public_base_url: "https://cdn".to_string(),
            access_key: None,
            secret_key: None,
            virtual_host_style: false,
        },
    );
    assert!(update_config(&record, &same).is_ok());
    let mut moved = same.clone();
    if let StorageBackendInput::S3 { bucket, .. } = &mut moved.backend {
        *bucket = "other".to_string();
    }
    assert!(matches!(update_config(&record, &moved), Err(StorageError::ImmutableIdentity)));
    let mut recoded = same.clone();
    recoded.code = "other".to_string();
    assert!(matches!(update_config(&record, &recoded), Err(StorageError::ImmutableIdentity)));
    let mut default_record = s3_record();
    default_record.is_default = true;
    let mut disabling = same.clone();
    disabling.enabled = false;
    assert!(matches!(
        update_config(&default_record, &disabling),
        Err(StorageError::DefaultProtected)
    ));
}

#[test]
fn lifecycle_rules() {
    assert!(matches!(enable_change(true, true, false), Err(StorageError::DefaultProtected)));
    assert_eq!(enable_change(false, true, true).ok(), Some(false));
    assert_eq!(enable_change(false, false, true).ok(), Some(true));
    assert!(matches!(default_change(false, false), Err(StorageError::DisabledDefault)));
    assert_eq!(default_change(true, true).ok(), Some(false));
    assert_eq!(default_change(true, false).ok(), Some(true));
    assert!(matches!(delete_check(true, 0), Err(StorageError::DefaultProtected)));
    assert!(matches!(delete_check(false, 2), Err(StorageError::InUse)));
    assert!(delete_check(false, 0).is_ok());
}

#[test]
fn updates_refuse_rows_without_complete_stored_keys() {
    let mut record = s3_record();
    record.secret_key = None;
    let payload = input(
        "S3",
        "s3_main",
        "",
        StorageBackendInput::S3 {
            root: Some("/files/".to_string()),
            bucket: "files".to_string(),
            region: "us-east-1".to_string(),
            endpoint: None,
            public_base_url: "https://cdn".to_string(),
            access_key: None,
            secret_key: None,
            virtual_host_style: false,
        },
    );
    assert!(matches!(
        update_config(&record, &payload),
        Err(StorageError::InvalidConfiguration(ObjectStorageError::IncompleteCredentials))
    ));
}

#[test]
fn public_urls_name_their_object_again() {
    let config = s3_config("files", "us-east-1", "https://cdn.example.test/", None);
    let storage = StorageBackend::from_s3_config(&config).ok().unwrap();
    let url = storage.public_url("report.pdf");
    assert_eq!(url, "https://cdn.example.test/report.pdf");
    assert_eq!(storage.managed_object(&url), Some("report.pdf".to_string()));
}

#[test]
fn the_default_storage_stays_single_and_enabled() {
    // (id, enabled, is_default)
    let mut storages = vec![(1_i64, true, true), (2_i64, true, false), (3_i64, false, false)];
    assert!(matches!(default_change(storages[2].1, storages[2].2), Err(StorageError::DisabledDefault)));
    assert_eq!(default_change(storages[1].1, storages[1].2).ok(), Some(true));
    for storage in storages.iter_mut() {
        storage.2 = storage.0 == 2;
    }
    assert!(matches!(enable_change(storages[1].2, storages[1].1, false), Err(StorageError::DefaultProtected)));
    assert_eq!(enable_change(storages[0].2, storages[0].1, false).ok(), Some(true));
    storages[0].1 = false;
    assert!(delete_check(storages[0].2, 0).is_ok());
    storages.remove(0);
    let defaults: Vec<_> = storages.iter().filter(|storage| storage.2).collect();
    assert_eq!(defaults.len(), 1);
    assert!(defaults[0].1);
}
