use ephemeral_files::blob::{BlobError, BlobStore};
use ephemeral_files::config::{select_config, ConfigError, Configuration, ConfigurationMain};
use ephemeral_files::store::{MarkOutcome, MetadataStore, StoreError};

fn cfg(retention: u64, url: &str) -> Configuration {
    Configuration {
        retention_time: retention,
        download_url: String::from(url),
        file_storage_location: String::from("./files"),
    }
}

#[test]
fn create_then_lookup_by_token() {
    let mut store = MetadataStore::new();
    let rec = store.create_file_storage("a.txt", "tok-one", 10).unwrap();
    assert_eq!(rec.id, 0);
    assert_eq!(rec.file_name, "a.txt");
    assert_eq!(rec.storage_name, "tok-one");
    assert_eq!(rec.created_at, 10);
    assert!(!rec.is_deleted);

    let found = store.get_file_name("tok-one").unwrap();
    assert_eq!(found.id, 0);
    assert_eq!(found.file_name, "a.txt");
    assert!(store.get_file_name("tok-two").is_none());
    assert_eq!(store.len(), 1);
}

#[test]
fn duplicate_active_token_is_refused() {
    let mut store = MetadataStore::new();
    store.create_file_storage("a.txt", "tok-one", 10).unwrap();
    let dup = store.create_file_storage("b.txt", "tok-one", 11);
    assert_eq!(dup.unwrap_err(), StoreError::DuplicateToken);
}

#[test]
fn deleted_token_may_be_reused() {
    let mut store = MetadataStore::new();
    let rec = store.create_file_storage("a.txt", "tok-one", 10).unwrap();
    assert_eq!(store.update_deleted(rec.id), MarkOutcome::MarkedNow);
    let again = store.create_file_storage("b.txt", "tok-one", 12).unwrap();
    assert_eq!(again.id, 1);
}

#[test]
fn mark_deleted_is_decided_exactly_once() {
    let mut store = MetadataStore::new();
    let rec = store.create_file_storage("a.txt", "tok-one", 10).unwrap();
    assert_eq!(store.update_deleted(rec.id), MarkOutcome::MarkedNow);
    assert_eq!(store.update_deleted(rec.id), MarkOutcome::AlreadyDeleted);
    assert_eq!(store.update_deleted(rec.id), MarkOutcome::AlreadyDeleted);
}

#[test]
fn list_active_skips_deleted() {
    let mut store = MetadataStore::new();
    let a = store.create_file_storage("a.txt", "tok-a", 10).unwrap();
    store.create_file_storage("b.txt", "tok-b", 11).unwrap();
    store.update_deleted(a.id);

    let active = store.get_all_file_name();
    assert_eq!(active.len(), 1);
    assert_eq!(active[0].storage_name, "tok-b");
}

#[test]
fn blob_write_is_exclusive() {
    let mut blobs = BlobStore::new();
    let one: Vec<u8> = vec![1, 2, 3];
    let two: Vec<u8> = vec![4, 5, 6];
    blobs.write("k1", &one).unwrap();
    assert_eq!(blobs.write("k1", &two).unwrap_err(), BlobError::AlreadyExists);
    assert_eq!(blobs.read("k1").unwrap(), one);
}

#[test]
fn blob_delete_is_idempotent_and_key_reusable() {
    let mut blobs = BlobStore::new();
    let one: Vec<u8> = vec![7, 8];
    let two: Vec<u8> = vec![9];
    blobs.write("k1", &one).unwrap();
    blobs.delete("k1");
    blobs.delete("k1");
    assert!(blobs.read("k1").is_none());
    assert!(!blobs.contains("k1"));
    blobs.write("k1", &two).unwrap();
    assert_eq!(blobs.read("k1").unwrap(), two);
}

#[test]
fn config_selection_follows_environment() {
    let all = ConfigurationMain {
        development: cfg(10, "dev.example.org"),
        staging: cfg(20, "staging.example.org"),
        production: cfg(30, "example.org"),
    };
    assert_eq!(select_config(&all, "STAGING").retention_time, 20);
    assert_eq!(select_config(&all, "PRODUCTION").retention_time, 30);
    assert_eq!(select_config(&all, "development").retention_time, 10);
    assert_eq!(select_config(&all, "anything-else").retention_time, 10);
}

#[test]
fn config_validation() {
    assert!(cfg(5, "example.org").validate().is_ok());
    assert_eq!(
        cfg(0, "example.org").validate().unwrap_err(),
        ConfigError::ConfigInvalid
    );
    let mut empty_url = cfg(5, "");
    empty_url.download_url = String::new();
    assert_eq!(empty_url.validate().unwrap_err(), ConfigError::ConfigInvalid);
}
