use git_remote_ipgrv::error::{ApiError, Error};
use git_remote_ipgrv::ipfs_api::{
    ipfs_data_dir_path, within_request_size, DataDir, Shell, API_FILE_NAME,
    IPFS_DATA_FOLDER_NAME, IPFS_DIR_ENV_VAR, MAX_REQUEST_SIZE,
};
use git_remote_ipgrv::tracker::{database_path, get_ref, has_entry, StorageError, NOTFOUND};

fn malformed() -> Result<Shell, Error> {
    Err(Error::ApiError(ApiError::MalformedAddress))
}

#[test]
fn shell_new_builds_base_url() {
    assert_eq!(Shell::new("/ip4/127.0.0.1/tcp/5001").unwrap().url(), "http://127.0.0.1:5001");
    assert_eq!(Shell::new("/ip4/10.0.0.7/tcp/80").unwrap().url(), "http://10.0.0.7:80");
    assert_eq!(Shell::new("/ip4//tcp/").unwrap().url(), "http://:");
}

#[test]
fn shell_new_ignores_first_character() {
    assert_eq!(Shell::new("xip4/1.2.3.4/tcp/1").unwrap().url(), "http://1.2.3.4:1");
    assert_eq!(Shell::new("éip4/1.2.3.4/tcp/1").unwrap().url(), "http://1.2.3.4:1");
}

#[test]
fn shell_new_refuses_other_addresses() {
    assert_eq!(Shell::new(""), malformed());
    assert_eq!(Shell::new("/"), malformed());
    assert_eq!(Shell::new("/ip4/127.0.0.1/tcp"), malformed());
    assert_eq!(Shell::new("/ip4/127.0.0.1/tcp/5001/"), malformed());
    assert_eq!(Shell::new("/ip6/::1/tcp/5001"), malformed());
    assert_eq!(Shell::new("/ip4/127.0.0.1/udp/5001"), malformed());
    assert_eq!(Shell::new("/ip4/127.0.0.1/tcp/5001/http"), malformed());
    assert_eq!(Shell::new("/ip4 /127.0.0.1/tcp/5001"), malformed());
}

#[test]
fn shell_from_api_file_trims_white_space() {
    assert_eq!(
        Shell::from_api_file("/ip4/127.0.0.1/tcp/5001\n").unwrap().url(),
        "http://127.0.0.1:5001"
    );
    assert_eq!(
        Shell::from_api_file(" \t/ip4/127.0.0.1/tcp/5001 \r\n\u{a0}").unwrap().url(),
        "http://127.0.0.1:5001"
    );
    assert_eq!(Shell::from_api_file("  \n"), malformed());
    assert_eq!(Shell::from_api_file(""), malformed());
    assert_eq!(Shell::from_api_file("/ip4/127.0.0.1/tcp/50 01").unwrap().url(), "http://127.0.0.1:50 01");
}

#[test]
fn data_dir_prefers_environment() {
    assert_eq!(
        ipfs_data_dir_path(Some("/srv/ipfs".to_string()), Some("/home/u".to_string())),
        Ok(DataDir::Configured("/srv/ipfs".to_string()))
    );
    assert_eq!(
        ipfs_data_dir_path(Some("/srv/ipfs".to_string()), None),
        Ok(DataDir::Configured("/srv/ipfs".to_string()))
    );
}

#[test]
fn data_dir_falls_back_to_home() {
    assert_eq!(
        ipfs_data_dir_path(None, Some("/home/u".to_string())),
        Ok(DataDir::UnderHome("/home/u".to_string()))
    );
    assert_eq!(
        ipfs_data_dir_path(Some(String::new()), Some("/home/u".to_string())),
        Ok(DataDir::UnderHome("/home/u".to_string()))
    );
}

#[test]
fn data_dir_needs_a_home() {
    assert_eq!(ipfs_data_dir_path(None, None), Err(Error::ApiError(ApiError::NoHomeDirectory)));
    assert_eq!(
        ipfs_data_dir_path(Some(String::new()), None),
        Err(Error::ApiError(ApiError::NoHomeDirectory))
    );
}

#[test]
fn api_names() {
    assert_eq!(IPFS_DIR_ENV_VAR, "IPFS_PATH");
    assert_eq!(IPFS_DATA_FOLDER_NAME, ".ipfs");
    assert_eq!(API_FILE_NAME, "api");
}

#[test]
fn tracker_path_is_below_metadata_directory() {
    assert_eq!(database_path("/repo/.git"), "/repo/.git/ipgrv");
    assert_eq!(database_path(""), "/ipgrv");
}

#[test]
fn tracker_absence_is_no_failure() {
    assert_eq!(NOTFOUND, -30798);
    assert_eq!(has_entry(Ok(())), Ok(true));
    assert_eq!(has_entry(Err(StorageError::Code(NOTFOUND))), Ok(false));
    assert_eq!(has_entry(Err(StorageError::Code(-30799))), Err(StorageError::Code(-30799)));
    assert_eq!(has_entry(Err(StorageError::Code(5))), Err(StorageError::Code(5)));
    assert_eq!(has_entry(Err(StorageError::Other)), Err(StorageError::Other));
}

#[test]
fn tracker_ref_lookup() {
    assert_eq!(get_ref(Ok("Qm123".to_string())), Ok(Some("Qm123".to_string())));
    assert_eq!(get_ref(Err(StorageError::Code(NOTFOUND))), Ok(None));
    assert_eq!(get_ref(Err(StorageError::Code(13))), Err(StorageError::Code(13)));
    assert_eq!(get_ref(Err(StorageError::Other)), Err(StorageError::Other));
}

fn params(pairs: &[(&str, &str)]) -> Vec<(String, String)> {
    pairs.iter().map(|(name, value)| (name.to_string(), value.to_string())).collect()
}

#[test]
fn request_url_appends_command_and_parameters() {
    let shell = Shell::new("/ip4/127.0.0.1/tcp/5001").unwrap();
    assert_eq!(
        shell.make_request_url("dag/put", &params(&[("input-enc", "raw"), ("format", "git")])),
        Ok("http://127.0.0.1:5001/api/v0/dag/put?input-enc=raw&format=git".to_string())
    );
    assert_eq!(
        shell.make_request_url("block/get", &params(&[("arg", "z8mWaJHXieAVxxLagBpdaNWFEBKVWmMiE")])),
        Ok("http://127.0.0.1:5001/api/v0/block/get?arg=z8mWaJHXieAVxxLagBpdaNWFEBKVWmMiE"
            .to_string())
    );
    assert_eq!(
        shell.make_request_url("version", &params(&[])),
        Ok("http://127.0.0.1:5001/api/v0/version?".to_string())
    );
}

#[test]
fn request_url_encodes_parameters() {
    let shell = Shell::new("/ip4/127.0.0.1/tcp/5001").unwrap();
    assert_eq!(
        shell.make_request_url("x", &params(&[("a b", "c&d=e")])),
        Ok("http://127.0.0.1:5001/api/v0/x?a+b=c%26d%3De".to_string())
    );
}

#[test]
fn request_url_needs_a_host() {
    let shell = Shell::new("/ip4//tcp/").unwrap();
    assert_eq!(
        shell.make_request_url("dag/put", &params(&[("format", "git")])),
        Err(Error::ApiError(ApiError::InvalidUrl))
    );
    let shell = Shell::new("/ip4/127.0.0.1/tcp/port").unwrap();
    assert_eq!(
        shell.make_request_url("dag/put", &params(&[])),
        Err(Error::ApiError(ApiError::InvalidUrl))
    );
}

#[test]
fn request_size_counts_bytes_and_two_for_each_parameter() {
    assert_eq!(MAX_REQUEST_SIZE, 268_435_456);
    assert!(within_request_size("", &params(&[])));
    assert!(within_request_size("http://a/", &params(&[("é", "b"), ("", "")])));
    let big = "a".repeat(MAX_REQUEST_SIZE - 8);
    assert!(within_request_size(&big, &params(&[("abc", "def")])));
    assert!(!within_request_size(&big, &params(&[("abc", "defg")])));
    // two bytes for "é", one for "b", two for the parameter: five; then two, three, four
    assert!(within_request_size(&big, &params(&[("é", "b"), ("", "")])));
    assert!(within_request_size(&big, &params(&[("é", "b"), ("", "a")])));
    assert!(!within_request_size(&big, &params(&[("é", "b"), ("", "ab")])));
    let shell = Shell::new("/ip4/127.0.0.1/tcp/5001").unwrap();
    assert_eq!(
        shell.make_request_url(&big, &params(&[])),
        Err(Error::ApiError(ApiError::InvalidUrl))
    );
}

#[test]
fn shell_from_api_file_trims_each_kind_of_white_space() {
    let spaces = "\u{9}\u{a}\u{b}\u{c}\u{d} \u{85}\u{a0}\u{1680}\u{2000}\u{2005}\u{200a}\u{2028}\u{2029}\u{202f}\u{205f}\u{3000}";
    let contents = format!("{}/ip4/1.2.3.4/tcp/5{}", spaces, spaces);
    assert_eq!(Shell::from_api_file(&contents).unwrap().url(), "http://1.2.3.4:5");
    // the zero-width space is no white space
    assert_eq!(
        Shell::from_api_file("/ip4/1.2.3.4/tcp/5\u{200b}").unwrap().url(),
        "http://1.2.3.4:5\u{200b}"
    );
}
