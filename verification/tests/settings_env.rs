use backuper::settings::{EnvVars, Settings};
use backuper::{DbConfig, Errors};

fn ok(s: &str) -> Result<String, String> {
    Ok(s.to_string())
}

fn full_vars() -> EnvVars {
    EnvVars {
        db_host: ok("localhost"),
        db_username: ok("user"),
        db_password: ok("SECRET-REDACTED"),
        db_name: ok("tracker"),
        drive_creds: ok("{}"),
        drive_folder_id: None,
        data_folder: None,
        db_port: ok("5432"),
        compression_level: None,
    }
}

fn env_error(r: Result<Settings, Errors>) -> String {
    match r {
        Err(Errors::EnvError(m)) => m,
        Err(e) => panic!("unexpected error {e:?}"),
        Ok(_) => panic!("settings were accepted"),
    }
}

#[test]
fn test_parse_ok() {
    let s = Settings::parse(full_vars()).unwrap();
    assert_eq!(s.db_host(), "localhost");
    assert_eq!(s.db_port(), 5432);
    assert_eq!(s.db_username(), "user");
    assert_eq!(s.db_password(), "SECRET-REDACTED");
    assert_eq!(s.db_name(), "tracker");
    assert_eq!(s.drive_creds, "{}");
    assert_eq!(s.comp_level, 3);
    assert_eq!(s.data_folder, None);
    assert_eq!(s.drive_folder_id, None);
}

#[test]
fn test_parse_with_empty_env() {
    let missing = || Err("environment variable not found".to_string());
    let v = EnvVars {
        db_host: missing(),
        db_username: missing(),
        db_password: missing(),
        db_name: missing(),
        drive_creds: missing(),
        drive_folder_id: None,
        data_folder: None,
        db_port: missing(),
        compression_level: None,
    };
    assert!(Settings::parse(v).is_err());
}

#[test]
fn test_parse_without_a_var() {
    let mut v = full_vars();
    v.db_name = Err("environment variable not found".to_string());
    assert_eq!(env_error(Settings::parse(v)), "environment variable not found");
}

#[test]
fn test_parse_first_missing_var_wins() {
    let mut v = full_vars();
    v.db_username = Err("first".to_string());
    v.drive_creds = Err("second".to_string());
    assert_eq!(env_error(Settings::parse(v)), "first");
}

#[test]
fn test_parse_wrong_data_folder() {
    let mut v = full_vars();
    v.data_folder = Some("test/".to_string());
    assert_eq!(env_error(Settings::parse(v)), "DATA_FOLDER could not ends with '/'");
}

#[test]
fn test_parse_data_folder_kept() {
    let mut v = full_vars();
    v.data_folder = Some("test".to_string());
    v.drive_folder_id = Some("folder".to_string());
    let s = Settings::parse(v).unwrap();
    assert_eq!(s.data_folder, Some("test".to_string()));
    assert_eq!(s.drive_folder_id, Some("folder".to_string()));
}

#[test]
fn test_parse_not_int_port() {
    let mut v = full_vars();
    v.db_port = ok("3.1415926535");
    assert_eq!(env_error(Settings::parse(v)), "DB_PORT must be int: invalid digit found in string");
}

#[test]
fn test_parse_negative_port() {
    let mut v = full_vars();
    v.db_port = ok("-42");
    assert_eq!(env_error(Settings::parse(v)), "DB_PORT must be int: invalid digit found in string");
}

#[test]
fn test_parse_zero_port() {
    let mut v = full_vars();
    v.db_port = ok("0");
    assert!(Settings::parse(v).is_err());
}

#[test]
fn test_parse_port_too_large() {
    let mut v = full_vars();
    v.db_port = ok("65536");
    assert_eq!(env_error(Settings::parse(v)), "DB_PORT must be int: number too large to fit in target type");
}

#[test]
fn test_parse_empty_port() {
    let mut v = full_vars();
    v.db_port = ok("");
    assert_eq!(env_error(Settings::parse(v)), "DB_PORT must be int: cannot parse integer from empty string");
}

#[test]
fn test_parse_compression_level() {
    let mut v = full_vars();
    v.compression_level = Some("19".to_string());
    assert_eq!(Settings::parse(v).unwrap().comp_level, 19);
    let mut v = full_vars();
    v.compression_level = Some("-5".to_string());
    assert_eq!(Settings::parse(v).unwrap().comp_level, -5);
}

#[test]
fn test_parse_compression_level_out_of_range() {
    let mut v = full_vars();
    v.compression_level = Some("23".to_string());
    assert_eq!(env_error(Settings::parse(v)), "Compression level must be in -131072..=22, 23 found");
}

#[test]
fn test_parse_compression_level_not_int() {
    let mut v = full_vars();
    v.compression_level = Some("high".to_string());
    assert_eq!(env_error(Settings::parse(v)), "COMPRESSION_LEVEL must be int: invalid digit found in string");
}

#[test]
fn test_env_file_entries() {
    let content = "DB_HOST = localhost\n\n; comment\nDB_PORT=5432\r\nNAME==x= \nno equals sign\n  KEY  \t=\tvalue with spaces  ";
    let e = Settings::env_file_entries(content);
    let expected: Vec<(String, String)> = vec![
        ("DB_HOST".to_string(), "localhost".to_string()),
        ("DB_PORT".to_string(), "5432".to_string()),
        ("NAME".to_string(), "=x=".to_string()),
        ("KEY".to_string(), "value with spaces".to_string()),
    ];
    assert_eq!(e, expected);
}

#[test]
fn test_env_file_entries_empty() {
    assert!(Settings::env_file_entries("").is_empty());
    assert!(Settings::env_file_entries("\n\n").is_empty());
}

#[test]
fn test_env_file_entries_bare_carriage_return_kept_in_last_line() {
    let e = Settings::env_file_entries("A=1\rB");
    assert_eq!(e, vec![("A".to_string(), "1\rB".to_string())]);
    let e = Settings::env_file_entries("A=1\r\n");
    assert_eq!(e, vec![("A".to_string(), "1".to_string())]);
}

fn std_entries(content: &str) -> Vec<(String, String)> {
    content
        .lines()
        .filter_map(|line| line.split_once('='))
        .map(|(n, v)| (n.trim().to_string(), v.trim().to_string()))
        .collect()
}

#[test]
fn test_env_file_entries_agree_with_std_lines_and_trim() {
    let samples = [
        "\u{3000}A\u{a0}=\u{2028}b\u{85}\n",
        "X=1\r\r\nY =\t2\n\rZ= 3 \r",
        "=empty name\nno\n\n\nK=V",
        "\u{1680}\u{2000}P\u{200a}=\u{202f}\u{205f}q\u{3000}x\u{2029}",
        "a\u{b}=\u{c}b\u{1}",
    ];
    for content in samples {
        assert_eq!(Settings::env_file_entries(content), std_entries(content), "{content:?}");
    }
}

#[test]
fn test_settings_getters_match_fields() {
    let mut v = full_vars();
    v.data_folder = Some("dumps".to_string());
    v.drive_folder_id = Some("f1".to_string());
    v.compression_level = Some("7".to_string());
    let s = Settings::parse(v).unwrap();
    assert_eq!(s.comp_level(), 7);
    assert_eq!(s.comp_level(), s.comp_level);
    assert_eq!(s.drive_creds(), "{}");
    assert_eq!(s.data_folder(), &Some("dumps".to_string()));
    assert_eq!(s.drive_folder_id(), &Some("f1".to_string()));
}
