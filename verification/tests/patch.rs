use rsbasic::error::ErrorCode;
use rsbasic::listing::Listing;
use rsbasic::patch::{open_error, program_crc, quoted_name, resolve_source, save_lines, status_error, Source};

#[test]
fn double_slash_names_come_from_the_patch_collection() {
    match resolve_source("//superstartrek") {
        Source::Remote(u) => assert_eq!(
            u,
            "https://raw.githubusercontent.com/rumbledethumps/rsbasic/master/patch/superstartrek"
        ),
        Source::Local => panic!("expected a remote source"),
    }
}

#[test]
fn http_names_are_fetched_as_they_are() {
    for name in ["http://example.com/a.bas", "https://example.com/b.bas"] {
        match resolve_source(name) {
            Source::Remote(u) => assert_eq!(u, name),
            Source::Local => panic!("expected a remote source"),
        }
    }
}

#[test]
fn other_names_are_files() {
    for name in ["game.bas", "/tmp/x.bas", "http:/x", "h"] {
        assert!(matches!(resolve_source(name), Source::Local));
    }
}

#[test]
fn load_errors_name_their_kind() {
    let e = status_error(404);
    assert_eq!(e.code, ErrorCode::FileNotFound);
    assert_eq!(e.detail, "404");
    let e = open_error(true, "No such file or directory (os error 2)");
    assert_eq!(e.code, ErrorCode::FileNotFound);
    assert_eq!(e.detail, "No such file or directory (os error 2)");
    let e = open_error(false, "Permission denied");
    assert_eq!(e.code, ErrorCode::InternalError);
    assert_eq!(e.describe(), "?INTERNAL ERROR; Permission denied");
}

#[test]
fn an_empty_program_is_not_saved() {
    let e = save_lines(&Listing::new()).unwrap_err();
    assert_eq!(e.code, ErrorCode::InternalError);
    assert_eq!(e.detail, "NOTHING TO SAVE");
    let mut l = Listing::new();
    l.load_str("20 B").unwrap();
    l.load_str("10 A").unwrap();
    assert_eq!(save_lines(&l).unwrap(), vec!["10 A", "20 B"]);
}

#[test]
fn file_names_are_given_in_quotes() {
    assert_eq!(quoted_name("\"game.bas\""), Some("game.bas".to_string()));
    assert_eq!(quoted_name("  \"a\" "), Some("a".to_string()));
    assert_eq!(quoted_name("\"\""), None);
    assert_eq!(quoted_name("\""), None);
    assert_eq!(quoted_name("game.bas"), None);
    assert_eq!(quoted_name("\"game.bas"), None);
}

#[test]
fn the_program_checksum_is_crc32_of_its_lines() {
    let mut l = Listing::new();
    l.load_str("10 PRINT \"é\"").unwrap();
    l.load_str("20 END").unwrap();
    let crc = crc::Crc::<u32>::new(&crc::CRC_32_ISO_HDLC);
    let mut digest = crc.digest();
    digest.update("10 PRINT \"é\"".as_bytes());
    digest.update("20 END".as_bytes());
    assert_eq!(program_crc(&l), digest.finalize());
    assert_eq!(program_crc(&Listing::new()), 0);
}
