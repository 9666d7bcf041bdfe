use teams::ascii_art::get_str_ascii;
use teams::cli::select_role;
use teams::cli::Config;
use teams::cli::Role;
use teams::error::classify_io_error;
use teams::error::ErrorClass;
use teams::error::IoErrorKind;

#[test]
fn role_follows_the_invocation_name() {
    assert_eq!(select_role("teams-client"), Role::Client);
    assert_eq!(select_role("/usr/bin/teams_server"), Role::Server);
    assert_eq!(select_role("teams"), Role::Unknown);
    // `client` wins when both substrings occur, as the client check
    // comes first.
    assert_eq!(select_role("client-server"), Role::Client);
}

#[test]
fn only_would_block_is_transient() {
    assert_eq!(classify_io_error(IoErrorKind::WouldBlock), ErrorClass::Transient);
    assert_eq!(classify_io_error(IoErrorKind::ConnectionReset), ErrorClass::ConnectionLost);
    assert_eq!(classify_io_error(IoErrorKind::ConnectionAborted), ErrorClass::ConnectionLost);
    assert_eq!(classify_io_error(IoErrorKind::BrokenPipe), ErrorClass::ConnectionLost);
    assert_eq!(classify_io_error(IoErrorKind::Other), ErrorClass::ConnectionLost);
}

#[test]
fn glyphs_cover_the_intensity_bands() {
    assert_eq!(get_str_ascii(0), " ");
    assert_eq!(get_str_ascii(31), " ");
    assert_eq!(get_str_ascii(32), ".");
    assert_eq!(get_str_ascii(64), ",");
    assert_eq!(get_str_ascii(128), "~");
    assert_eq!(get_str_ascii(224), "@");
    assert_eq!(get_str_ascii(255), "@");
}

#[test]
fn config_takes_query_and_file_path() {
    let args = vec![
        String::from("prog"),
        String::from("needle"),
        String::from("haystack.txt"),
    ];
    let c = Config::new(&args);
    assert_eq!(c.query, "needle");
    assert_eq!(c.file_path, "haystack.txt");
}
