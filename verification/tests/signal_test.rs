use sf_pkgen::error::AppError;
use sf_pkgen::signal::{check_and_clear_interrupted, check_interrupted};

#[test]
fn check_interrupted_returns_ok_when_not_interrupted() {
    let interrupted = false;
    assert!(check_interrupted(interrupted).is_ok());
}

#[test]
fn check_interrupted_returns_cancelled_when_interrupted() {
    let interrupted = true;
    let err = check_interrupted(interrupted).unwrap_err();
    assert!(matches!(err, AppError::Cancelled));
}

#[test]
fn check_and_clear_resets_flag() {
    let mut flag = true;
    assert!(check_and_clear_interrupted(&mut flag));
    assert!(!flag);
}

#[test]
fn check_and_clear_on_clear_flag_reports_false() {
    let mut flag = false;
    assert!(!check_and_clear_interrupted(&mut flag));
    assert!(!flag);
}
