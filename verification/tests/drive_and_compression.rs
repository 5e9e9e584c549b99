use backuper::drive::{download_path, upload_outcome};
use backuper::compression::{compress, decompress};
use backuper::drive::{latest_file, name_query, parents_query, single_file_id, DriveFile};
use backuper::Errors;

fn storage_error<T: std::fmt::Debug>(r: Result<T, Errors>) -> String {
    match r {
        Err(Errors::StorageError(m)) => m,
        other => panic!("unexpected {other:?}"),
    }
}

#[test]
fn test_queries() {
    assert_eq!(name_query("tracker"), "name = 'tracker'");
    assert_eq!(parents_query("abc"), "'abc' in parents");
}

#[test]
fn test_single_file_id() {
    assert_eq!(single_file_id("tracker", Some(vec![Some("id1".to_string())])).unwrap(), "id1");
    assert_eq!(storage_error(single_file_id("tracker", None)), "Could not get files, response body is empty");
    assert_eq!(storage_error(single_file_id("tracker", Some(vec![]))), "File 'tracker' not found");
    assert_eq!(storage_error(single_file_id("tracker", Some(vec![None]))), "Field 'id' not found");
    assert_eq!(
        storage_error(single_file_id("tracker", Some(vec![None, Some("x".to_string()), None]))),
        "There are 3 items found for 'tracker'"
    );
}

fn file(id: &str, name: &str, t: Option<(i64, u32)>) -> DriveFile {
    DriveFile { id: Some(id.to_string()), name: Some(name.to_string()), created_time: t }
}

#[test]
fn test_latest_file() {
    let files = vec![
        file("1", "old", Some((100, 0))),
        file("2", "new", Some((200, 5))),
        file("3", "also new", Some((200, 5))),
        file("4", "middle", Some((200, 4))),
    ];
    let f = latest_file(Some(files)).unwrap();
    assert_eq!(f.id.as_deref(), Some("2"));
    assert_eq!(f.name.as_deref(), Some("new"));
}

#[test]
fn test_latest_file_single_without_time() {
    let f = latest_file(Some(vec![file("9", "only", None)])).unwrap();
    assert_eq!(f.id.as_deref(), Some("9"));
}

#[test]
fn test_latest_file_empty() {
    assert_eq!(storage_error(latest_file(None)), "Could not get files, response body is empty");
    assert_eq!(storage_error(latest_file(Some(vec![]))), "Could not get files, response body is empty");
}

#[test]
fn test_compress_round_trip() {
    let input = b"{\"users\": [{\"id\": 1}, {\"id\": 1}, {\"id\": 1}]}".repeat(20);
    let out = compress(&input, 3).unwrap();
    assert_ne!(out, input);
    assert!(out.len() < input.len());
    let back = zstd::stream::decode_all(out.as_slice()).unwrap();
    assert_eq!(back, input);
}

#[test]
fn test_upload_outcome() {
    assert_eq!(upload_outcome(true, String::new(), Some("id7".to_string())).unwrap(), "id7");
    assert_eq!(upload_outcome(true, String::new(), None).unwrap(), "undefined");
    assert_eq!(
        storage_error(upload_outcome(false, "Sending failed: 500".to_string(), Some("x".to_string()))),
        "Sending failed: 500"
    );
}

#[test]
fn test_decompress_gives_back_what_compress_made() {
    let input = b"table rows, table rows, table rows".repeat(10);
    for level in [-5, 0, 1, 3, 19, 22, 100, -1_000_000] {
        let out = compress(&input, level).unwrap();
        assert_eq!(decompress(&out).unwrap(), input, "level {level}");
    }
    assert_eq!(decompress(&compress(&[], 3).unwrap()).unwrap(), Vec::<u8>::new());
}

#[test]
fn test_decompress_rejects_what_is_no_zstd_frame() {
    match decompress(b"not a zstd frame") {
        Err(Errors::DumpError(m)) => assert!(!m.is_empty()),
        other => panic!("unexpected {other:?}"),
    }
}

#[test]
fn test_download_path() {
    assert_eq!(download_path("/tmp/", "backup_db.dump"), "/tmp/backup_db.dump");
    assert_eq!(download_path("", "f"), "f");
}
