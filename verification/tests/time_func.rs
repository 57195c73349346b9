use rusthydrus::time_func::{time_conv, time_conv_checked, time_secs};

#[test]
fn time_conv_units_add_up() {
    assert_eq!(time_conv(&"1d2h".to_string()), 86400 + 2 * 3600);
}

#[test]
fn time_conv_now_is_zero() {
    assert_eq!(time_conv(&"NoW".to_string()), 0);
}

#[test]
fn time_conv_checked_rejects_bad_number() {
    assert_eq!(time_conv_checked(&"xd".to_string()), None);
    assert_eq!(time_conv_checked(&"3w".to_string()), Some(3 * 604800));
}

#[test]
fn time_secs_reads_the_clock() {
    let t = time_secs().unwrap();
    assert!(t > 1_600_000_000);
}

#[test]
fn time_conv_minutes() {
    assert_eq!(time_conv(&"5m".to_string()), 300);
    assert_eq!(time_conv(&"1h30m".to_string()), 3600 + 30 * 60);
    assert_eq!(time_conv(&"1y2w3d4h5m6s".to_string()), 31557600 + 2 * 604800 + 3 * 86400 + 4 * 3600 + 5 * 60 + 6);
}

#[test]
fn seconds_fit_a_usize() {
    assert_eq!(rusthydrus::time_func::secs_to_usize(0), Some(0));
    assert_eq!(rusthydrus::time_func::secs_to_usize(1_700_000_000), Some(1_700_000_000));
    assert_eq!(rusthydrus::time_func::secs_to_usize(u64::MAX), Some(usize::MAX));
}

#[test]
fn now_in_any_case() {
    assert!(rusthydrus::time_func::is_now("now"));
    assert!(rusthydrus::time_func::is_now("NoW"));
    assert!(!rusthydrus::time_func::is_now("now!"));
    assert!(!rusthydrus::time_func::is_now("no"));
    assert_eq!(time_conv(&"NOW".to_string()), 0);
}
