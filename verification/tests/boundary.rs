use ephemeral_files::config::Configuration;
use ephemeral_files::engine::System;

fn test_config() -> Configuration {
    Configuration {
        retention_time: 3600,
        download_url: String::from("files.example.org"),
        file_storage_location: String::from("./data"),
    }
}

#[test]
fn generated_tokens_are_sixteen_alphanumerics() {
    let mut sys = System::new(test_config());
    let data: Vec<u8> = b"payload".to_vec();
    let detail = sys.save_file("notes.txt", &data, 0).unwrap();

    let token = detail.download_url.rsplit('/').next().unwrap();
    assert_eq!(token.chars().count(), 16);
    assert!(token.chars().all(|c| c.is_ascii_alphanumeric()));
}

#[test]
fn download_url_carries_host_and_token() {
    let mut sys = System::new(test_config());
    let data: Vec<u8> = b"payload".to_vec();
    let detail = sys.save_file("notes.txt", &data, 0).unwrap();

    assert!(detail.download_url.starts_with("https://files.example.org/"));
    let token = detail.download_url.rsplit('/').next().unwrap();
    assert_eq!(sys.download_file(token).unwrap(), data);
}

#[test]
fn expiry_stamp_is_upload_time_plus_retention() {
    let mut sys = System::new(test_config());
    let data: Vec<u8> = b"payload".to_vec();
    let detail = sys.save_file("notes.txt", &data, 0).unwrap();
    assert_eq!(detail.expiry, "1970-01-01 01:00:00");

    let later = sys.save_file("more.txt", &data, 1700000000).unwrap();
    assert_eq!(later.expiry, "2023-11-14 23:13:20");

    let mut short = System::new(Configuration {
        retention_time: 5,
        download_url: String::from("files.example.org"),
        file_storage_location: String::from("./data"),
    });
    let soon = short.save_file("brief.txt", &data, 0).unwrap();
    assert_eq!(soon.expiry, "1970-01-01 00:00:05");
}

#[test]
fn file_names_are_sanitized_on_upload() {
    let mut sys = System::new(test_config());
    let data: Vec<u8> = b"payload".to_vec();
    let detail = sys.save_file("../evil/notes.txt", &data, 0).unwrap();

    let token = detail.download_url.rsplit('/').next().unwrap();
    let rec = sys.get_file_name(token).unwrap();
    assert_eq!(rec.file_name, "..evilnotes.txt");
}

#[test]
fn reserved_file_name_is_emptied() {
    let mut sys = System::new(test_config());
    let data: Vec<u8> = b"payload".to_vec();
    let detail = sys.save_file("..", &data, 0).unwrap();

    let token = detail.download_url.rsplit('/').next().unwrap();
    let rec = sys.get_file_name(token).unwrap();
    assert_eq!(rec.file_name, "");
}
