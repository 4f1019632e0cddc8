use ephemeral_files::blob::BlobStore;
use ephemeral_files::config::Configuration;
use ephemeral_files::engine::{EngineError, System};
use ephemeral_files::store::MetadataStore;

fn test_config(retention: u64) -> Configuration {
    Configuration {
        retention_time: retention,
        download_url: String::from("files.example.org"),
        file_storage_location: String::from("./data"),
    }
}

fn token_of(url: &str) -> String {
    url.rsplit('/').next().unwrap().to_string()
}

#[test]
fn download_then_second_download_fails() {
    // Upload "notes.txt" with a five-second retention window; a download at
    // t=2 succeeds with the uploaded bytes, a second download at t=3 fails.
    let mut sys = System::new(test_config(5));
    let data: Vec<u8> = b"remember the milk".to_vec();
    let detail = sys.save_file("notes.txt", &data, 0).unwrap();
    let token = token_of(&detail.download_url);

    let got = sys.download_file(&token);
    assert_eq!(got.unwrap(), data);

    let again = sys.download_file(&token);
    assert_eq!(again.unwrap_err(), EngineError::RecordNotFound);
}

#[test]
fn expired_record_is_deleted_and_not_downloadable() {
    // Upload "notes.txt" with a five-second retention window and never
    // download it; once the timer fires at t=6 the record is deleted, its
    // blob is gone, and a download fails.
    let mut sys = System::new(test_config(5));
    let data: Vec<u8> = b"short lived".to_vec();
    let detail = sys.save_file("notes.txt", &data, 0).unwrap();
    let token = token_of(&detail.download_url);

    sys.fire_due(6);

    assert!(sys.get_file_name(&token).is_none());
    assert_eq!(sys.download_file(&token).unwrap_err(), EngineError::RecordNotFound);
}

#[test]
fn record_past_window_is_gone_fresh_record_survives() {
    // With retention five, a timer firing at t=4 touches nothing; at t=5
    // the record expires exactly at the window's edge.
    let mut sys = System::new(test_config(5));
    let data: Vec<u8> = b"edge of the window".to_vec();
    let detail = sys.save_file("notes.txt", &data, 0).unwrap();
    let token = token_of(&detail.download_url);

    sys.fire_due(4);
    assert!(sys.get_file_name(&token).is_some());

    sys.fire_due(5);
    assert!(sys.get_file_name(&token).is_none());
    assert_eq!(sys.download_file(&token).unwrap_err(), EngineError::RecordNotFound);
}

#[test]
fn executor_is_idempotent() {
    // Any number of executor invocations for the same id succeed; the blob
    // is removed once and the record stays deleted.
    let mut sys = System::new(test_config(5));
    let data: Vec<u8> = b"delete me twice".to_vec();
    let rec = sys
        .save_file_with_token("notes.txt", &data, "tokenABCDEF01234", 0)
        .unwrap();

    sys.delete_file(rec.id);
    sys.delete_file(rec.id);
    sys.delete_file(rec.id);

    assert!(sys.get_file_name("tokenABCDEF01234").is_none());
    assert_eq!(
        sys.download_file("tokenABCDEF01234").unwrap_err(),
        EngineError::RecordNotFound
    );
}

#[test]
fn token_collision_regenerates_and_leaves_first_upload_intact() {
    // Two uploads racing to the same token: the second attempt under the
    // taken token fails without touching anything, succeeds under a fresh
    // token, and the first upload's blob is unchanged.
    let mut sys = System::new(test_config(60));
    let first: Vec<u8> = b"first payload".to_vec();
    let second: Vec<u8> = b"second payload".to_vec();

    sys.save_file_with_token("a.txt", &first, "sharedtoken00001", 0)
        .unwrap();

    let clash = sys.save_file_with_token("b.txt", &second, "sharedtoken00001", 1);
    assert_eq!(clash.unwrap_err(), EngineError::TokenCollision);

    let retry = sys.save_file_with_token("b.txt", &second, "sharedtoken00002", 1);
    assert!(retry.is_ok());

    assert_eq!(sys.download_file("sharedtoken00001").unwrap(), first);
    assert_eq!(sys.download_file("sharedtoken00002").unwrap(), second);
}

#[test]
fn same_token_different_name_still_collides() {
    // The token is taken by an active record even though the composite blob
    // key would differ.
    let mut sys = System::new(test_config(60));
    let first: Vec<u8> = b"one".to_vec();
    let second: Vec<u8> = b"two".to_vec();

    sys.save_file_with_token("a.txt", &first, "sharedtoken00003", 0)
        .unwrap();
    let clash = sys.save_file_with_token("b.txt", &second, "sharedtoken00003", 0);
    assert_eq!(clash.unwrap_err(), EngineError::TokenCollision);
}

#[test]
fn startup_catches_up_on_stale_records() {
    // A record created two windows before the restart is deleted by the
    // startup scan, before anything is served.
    let mut store = MetadataStore::new();
    let mut blobs = BlobStore::new();
    let data: Vec<u8> = b"left over from before the restart".to_vec();
    let rec = store
        .create_file_storage("notes.txt", "staletoken000001", 100)
        .unwrap();
    assert_eq!(rec.id, 0);
    blobs
        .write("staletoken000001-notes.txt", &data)
        .unwrap();

    let mut sys = System::restore(test_config(5), store, blobs);
    sys.startup(110);

    assert!(sys.get_file_name("staletoken000001").is_none());
    assert_eq!(
        sys.download_file("staletoken000001").unwrap_err(),
        EngineError::RecordNotFound
    );
}

#[test]
fn startup_rearms_fresh_records() {
    // A record still inside its window survives the scan, is downloadable,
    // and its re-derived timer expires it on schedule.
    let mut store = MetadataStore::new();
    let mut blobs = BlobStore::new();
    let data: Vec<u8> = b"still fresh".to_vec();
    store
        .create_file_storage("notes.txt", "freshtoken000001", 100)
        .unwrap();
    blobs.write("freshtoken000001-notes.txt", &data).unwrap();

    let mut sys = System::restore(test_config(5), store, blobs);
    sys.startup(102);

    assert!(sys.get_file_name("freshtoken000001").is_some());

    sys.fire_due(105);
    assert!(sys.get_file_name("freshtoken000001").is_none());
}

#[test]
fn startup_after_catchup_roundtrip_still_works() {
    // A fresh record after the scan still serves its exact bytes.
    let mut store = MetadataStore::new();
    let mut blobs = BlobStore::new();
    let data: Vec<u8> = b"bytes preserved across the restart".to_vec();
    store
        .create_file_storage("keep.txt", "freshtoken000002", 100)
        .unwrap();
    blobs.write("freshtoken000002-keep.txt", &data).unwrap();

    let mut sys = System::restore(test_config(50), store, blobs);
    sys.startup(120);

    assert_eq!(sys.download_file("freshtoken000002").unwrap(), data);
}

#[test]
fn restart_tolerates_crash_leftovers() {
    // A crash can leave a record already marked deleted with its blob still
    // present, and a blob whose record was never created.  A restart
    // accepts both leftovers, and the surviving active record still serves
    // its exact bytes.
    let mut store = MetadataStore::new();
    let mut blobs = BlobStore::new();
    let stale: Vec<u8> = b"blob of a record marked before the crash".to_vec();
    let orphan: Vec<u8> = b"blob whose record was never created".to_vec();
    let live: Vec<u8> = b"the record that matters".to_vec();

    let marked = store
        .create_file_storage("a.txt", "crashedtoken0001", 100)
        .unwrap();
    blobs.write("crashedtoken0001-a.txt", &stale).unwrap();
    store.update_deleted(marked.id);

    blobs.write("orphantoken00001-b.txt", &orphan).unwrap();

    store
        .create_file_storage("c.txt", "livetoken0000001", 101)
        .unwrap();
    blobs.write("livetoken0000001-c.txt", &live).unwrap();

    let mut sys = System::restore(test_config(60), store, blobs);
    sys.startup(102);

    assert!(sys.get_file_name("crashedtoken0001").is_none());
    assert!(sys.get_file_name("orphantoken00001").is_none());
    assert_eq!(sys.download_file("livetoken0000001").unwrap(), live);
}

#[test]
fn unknown_token_is_not_found() {
    let mut sys = System::new(test_config(5));
    assert_eq!(
        sys.download_file("nosuchtoken00001").unwrap_err(),
        EngineError::RecordNotFound
    );
}
