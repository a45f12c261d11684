use thwack::error::{Error, ErrorKind};
use thwack::preferences::Preferences;
use thwack::starting_point::{canonicalize_error_message, StartingPoint};
use thwack::status_line::StatusLine;

#[test]
fn try_from() {
    assert_eq!(
        StatusLine::try_from("absolute".to_string()),
        Ok(StatusLine::Absolute)
    );
    assert_eq!(
        StatusLine::try_from("relative".to_string()),
        Ok(StatusLine::Relative)
    );
    assert_eq!(
        StatusLine::try_from("none".to_string()),
        Ok(StatusLine::Hidden)
    );
    assert_eq!(
        StatusLine::try_from("invalid".to_string()),
        Err((
            "The possible value is one of \"absolute\", \"relative\", or \"none\"".to_string(),
            "invalid".to_string(),
        ))
    );
}

#[test]
fn parsed_args_returns_default() {
    let preferences = Preferences::default();
    assert_eq!(preferences.help, false);
    assert_eq!(preferences.version, false);
    assert_eq!(preferences.gitignore, true);
    assert_eq!(preferences.starting_point, ".");
    assert_eq!(preferences.status_line, StatusLine::Absolute);
    assert_eq!(preferences.log_file, None);
    assert_eq!(preferences.query, "");
    assert_eq!(preferences.exec_command, "cat");
}

#[test]
fn starting_point_new() {
    let sp = StartingPoint::new(String::from("tmp"));
    assert_eq!(sp.as_ref(), "tmp");
}

#[test]
fn as_ref() {
    assert_eq!(StartingPoint::new(String::from("tmp")).as_ref(), "tmp");
}

#[test]
fn new_fail_with_non_existent_dir() {
    assert_eq!(
        canonicalize_error_message("non_existent_dir"),
        "The specified starting point \"non_existent_dir\" cannot be normalized. Perhaps, it might not exist or cannot be read."
    );
}

#[test]
fn error_constructors_carry_kind_and_exit_code() {
    let e = Error::args("bad flag");
    assert_eq!(e.message(), "bad flag");
    assert!(matches!(e.kind, ErrorKind::Args));
    assert_eq!(e.exit_code, 1);

    let e = Error::insufficient_query("too short");
    assert!(matches!(e.kind, ErrorKind::InsufficientQuery));
    assert_eq!(e.exit_code, 1);

    let e = Error::invalid_unicode("bad path");
    assert!(matches!(e.kind, ErrorKind::InvalidUnicode));
    assert_eq!(e.message, "bad path");

    let e = Error::exec("`cat x` failed and returned 1");
    assert!(matches!(e.kind, ErrorKind::Exec));
    assert_eq!(e.exit_code, 1);
}
