use free_to_github::logger::{
    chrono_time, log_connection_metrics, log_hosts_operation, u128_to_string,
};

#[test]
fn test_chrono_time_format() {
    assert_eq!(chrono_time(0, 0), "00:00:00.000");
    assert_eq!(chrono_time(3661, 42), "01:01:01.042");
    assert_eq!(chrono_time(86399, 999), "23:59:59.999");
    // a full day wraps
    assert_eq!(chrono_time(86400 + 3600 * 12 + 60 * 34 + 56, 7), "12:34:56.007");
}

#[test]
fn test_u128_to_string() {
    assert_eq!(u128_to_string(0), "0");
    assert_eq!(u128_to_string(7), "7");
    assert_eq!(u128_to_string(1000), "1000");
    assert_eq!(u128_to_string(123456789), "123456789");
}

#[test]
fn test_connection_metrics_messages() {
    assert_eq!(
        log_connection_metrics("github.com:443", 120, true),
        "Connection to github.com:443 completed in 120 ms ✓"
    );
    assert_eq!(
        log_connection_metrics("github.com:443", 3000, false),
        "Connection to github.com:443 failed or timed out (took 3000 ms)"
    );
}

#[test]
fn test_hosts_operation_messages() {
    assert_eq!(log_hosts_operation("enable", 3, true), "Hosts enable operation completed in 3 ms ✓");
    assert_eq!(
        log_hosts_operation("disable", 15, false),
        "Hosts disable operation failed (took 15 ms)"
    );
}
