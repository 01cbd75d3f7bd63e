use log_tail::query::{build_query, i64_to_decimal, u64_to_decimal};

#[test]
fn decimal_of_small_values() {
    assert_eq!(u64_to_decimal(0), "0");
    assert_eq!(u64_to_decimal(7), "7");
    assert_eq!(u64_to_decimal(10), "10");
    assert_eq!(u64_to_decimal(123456789), "123456789");
}

#[test]
fn decimal_of_extreme_values() {
    assert_eq!(u64_to_decimal(u64::MAX), "18446744073709551615");
    assert_eq!(i64_to_decimal(i64::MAX), "9223372036854775807");
    assert_eq!(i64_to_decimal(i64::MIN), "-9223372036854775808");
}

#[test]
fn decimal_of_signed_values() {
    assert_eq!(i64_to_decimal(0), "0");
    assert_eq!(i64_to_decimal(-1), "-1");
    assert_eq!(i64_to_decimal(-300), "-300");
    assert_eq!(i64_to_decimal(1700000000), "1700000000");
}

#[test]
fn query_without_watermark_selects_everything() {
    assert_eq!(
        build_query(None),
        "SELECT timestmp, level_string, logger_name, thread_name, formatted_message \
         FROM logging_event ORDER BY timestmp DESC"
    );
}

#[test]
fn query_with_watermark_bounds_below() {
    assert_eq!(
        build_query(Some(300)),
        "SELECT timestmp, level_string, logger_name, thread_name, formatted_message \
         FROM logging_event WHERE timestmp > 300 ORDER BY timestmp DESC"
    );
}

#[test]
fn query_with_negative_watermark() {
    assert_eq!(
        build_query(Some(-42)),
        "SELECT timestmp, level_string, logger_name, thread_name, formatted_message \
         FROM logging_event WHERE timestmp > -42 ORDER BY timestmp DESC"
    );
}

#[test]
fn default_config_points_at_documented_directory() {
    let c = log_tail::config::Config::default();
    assert_eq!(
        c.ignition_install_directory,
        "C:\\Program Files\\Inductive Automation"
    );
}

#[test]
fn log_file_path_is_under_install_directory() {
    assert_eq!(
        log_tail::config::get_log_file_path("/opt/ignition"),
        "/opt/ignition/Ignition/logs/system_logs.idb"
    );
}
