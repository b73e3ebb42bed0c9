use free_to_github::hosts::{
    build_default_hosts_content, check_permission, disable, enable, enable_optimized,
    get_append_bytes, get_hosts_path, is_enabled, HostsError, OptimizedIpStore, PermissionError,
    StoreRecord,
};
use std::time::Instant;

const START: &str = "# === FREE_TO_GITHUB START ===";
const END: &str = "# === FREE_TO_GITHUB END ===";

fn default_block() -> String {
    let lines = [
        ("140.82.113.4", "github.com"),
        ("140.82.113.6", "api.github.com"),
        ("140.82.114.4", "gist.github.com"),
        ("185.199.108.153", "assets-cdn.github.com"),
        ("199.232.69.194", "github.global.ssl.fastly.net"),
        ("185.199.108.133", "raw.githubusercontent.com"),
        ("185.199.108.154", "github.githubassets.com"),
        ("140.82.113.10", "codeload.github.com"),
        ("185.199.108.133", "cloud.githubusercontent.com"),
        ("185.199.108.133", "avatars.githubusercontent.com"),
        ("185.199.108.133", "objects.githubusercontent.com"),
        ("185.199.108.153", "githubstatus.com"),
        ("140.82.113.22", "collector.github.com"),
    ];
    let mut s = String::new();
    s.push('\n');
    s.push_str(START);
    s.push('\n');
    for (ip, d) in lines.iter() {
        s.push_str(ip);
        s.push(' ');
        s.push_str(d);
        s.push('\n');
    }
    s.push_str(END);
    s.push('\n');
    s
}

#[test]
fn test_enable_disable_performance() {
    let start = Instant::now();
    let content = String::from("127.0.0.1 localhost\n");

    let enable_start = Instant::now();
    let enabled = enable(&content).unwrap();
    let enable_time = enable_start.elapsed();

    println!("Enable operation took: {:?}", enable_time);
    assert!(enable_time.as_millis() < 1000, "Enable should complete within 1 second");

    let disable_start = Instant::now();
    let _ = disable(&enabled).unwrap();
    let disable_time = disable_start.elapsed();

    println!("Disable operation took: {:?}", disable_time);
    assert!(disable_time.as_millis() < 1000, "Disable should complete within 1 second");

    println!("Total time: {:?}", start.elapsed());
}

#[test]
fn test_is_enabled_performance() {
    let content = String::from("127.0.0.1 localhost\n::1 localhost\n");
    let start = Instant::now();
    for _ in 0..100 {
        let _ = is_enabled(&content);
    }
    let elapsed = start.elapsed();

    println!("100 is_enabled() checks took: {:?}", elapsed);
    let avg = elapsed.as_millis() / 100;
    println!("Average per check: {} ms", avg);
    assert!(avg < 10, "Each check should be < 10ms");
}

#[test]
fn test_enable_idempotent() {
    let content = String::from("127.0.0.1 localhost\n");
    let once = enable(&content).unwrap();
    let start = Instant::now();
    let twice = enable(&once).unwrap();
    let elapsed = start.elapsed();

    println!("Second enable (idempotent) took: {:?}", elapsed);
    assert!(elapsed.as_millis() < 500, "Idempotent enable should be fast");
    assert_eq!(once, twice);
}

#[test]
fn test_hosts_operations_sequence() {
    let content = String::from("127.0.0.1 localhost\n");
    let start = Instant::now();

    let check_start = Instant::now();
    let enabled_before = is_enabled(&content);
    let check_time = check_start.elapsed();
    println!("is_enabled check: {:?} -> {}", check_time, enabled_before);
    assert!(check_time.as_millis() < 100, "Status check should be < 100ms");

    let enable_start = Instant::now();
    let enabled_content = enable(&content).unwrap();
    let enable_time = enable_start.elapsed();
    println!("enable operation: {:?}", enable_time);
    assert!(enable_time.as_millis() < 1000, "Enable should be < 1000ms");

    let verify_start = Instant::now();
    let is_enabled_now = is_enabled(&enabled_content);
    let verify_time = verify_start.elapsed();
    println!("verify enabled: {:?} -> {}", verify_time, is_enabled_now);

    let total = start.elapsed();
    println!("Total sequence time: {:?}", total);
    assert!(total.as_millis() < 2000, "Total sequence should be < 2000ms");
}

#[test]
fn test_performance_benchmark() {
    let content = String::from("127.0.0.1 localhost\n");
    println!("\n=== Performance Benchmark ===");

    let mut total_time = std::time::Duration::ZERO;

    for i in 0..3 {
        let start = Instant::now();
        let _ = is_enabled(&content);
        let elapsed = start.elapsed();
        total_time += elapsed;

        println!("is_enabled {}: {:.2}ms", i + 1, elapsed.as_secs_f64() * 1000.0);
    }

    println!("Total benchmark time: {:.2}ms", total_time.as_secs_f64() * 1000.0);
    println!("=== Benchmark Complete ===\n");
}

#[test]
fn test_cache_effectiveness() {
    let content = String::from("127.0.0.1 localhost\n");
    let mut times = Vec::new();

    let start = Instant::now();
    let _ = is_enabled(&content);
    times.push(start.elapsed());

    for _ in 0..10 {
        let start = Instant::now();
        let _ = is_enabled(&content);
        times.push(start.elapsed());
    }

    let first = times[0].as_micros();
    let avg_rest =
        times[1..].iter().map(|t| t.as_micros()).sum::<u128>() / times[1..].len() as u128;

    println!("First call: {} µs", first);
    println!("Average of next 10: {} µs", avg_rest);

    assert!(avg_rest < 100000, "Average operation should be < 100ms, got {} µs", avg_rest);
}

#[test]
fn test_enable_appends_default_block() {
    let content = String::from("127.0.0.1 localhost");
    let enabled = enable(&content).unwrap();
    let mut expected = content.clone();
    expected.push_str(&default_block());
    assert_eq!(enabled, expected);
    assert!(is_enabled(&enabled));
    assert!(!is_enabled(&content));
}

#[test]
fn test_enable_twice_single_block() {
    let content = String::from("127.0.0.1 localhost\n");
    let once = enable(&content).unwrap();
    let twice = enable(&once).unwrap();
    assert_eq!(once, twice);
    assert_eq!(twice.matches(START).count(), 1);
    assert_eq!(twice.matches(END).count(), 1);
}

#[test]
fn test_round_trip_exact() {
    for before in [
        "127.0.0.1 localhost",
        "127.0.0.1 localhost\n",
        "",
        "# a comment\n10.0.0.1 box\n\n",
    ] {
        let content = String::from(before);
        let enabled = enable(&content).unwrap();
        let restored = disable(&enabled).unwrap();
        assert_eq!(restored, content, "round trip must restore the content");
    }
}

#[test]
fn test_round_trip_optimized() {
    let mut store = OptimizedIpStore::new();
    store.records.push(StoreRecord {
        domain: String::from("github.com"),
        ip: String::from("9.9.9.9"),
    });
    let content = String::from("# my file\n10.1.1.1 printer\n");
    let enabled = enable_optimized(&content, &store).unwrap();
    assert!(enabled.contains("9.9.9.9 github.com\n"));
    let restored = disable(&enabled).unwrap();
    assert_eq!(restored, content);
}

#[test]
fn test_disable_no_block_is_noop() {
    let content = String::from("127.0.0.1 localhost\n# nothing managed here\n");
    let out = disable(&content).unwrap();
    assert_eq!(out, content);
}

#[test]
fn test_disable_inconsistent_block() {
    let mut content = String::from("127.0.0.1 localhost\n");
    content.push_str(START);
    content.push_str("\n1.2.3.4 example\n");
    let err = disable(&content).unwrap_err();
    assert_eq!(err, HostsError::InconsistentBlock);
    let err2 = enable(&content).unwrap_err();
    assert_eq!(err2, HostsError::InconsistentBlock);
}

#[test]
fn test_disable_end_before_start_inconsistent() {
    let mut content = String::from(END);
    content.push('\n');
    content.push_str(START);
    content.push('\n');
    let err = disable(&content).unwrap_err();
    assert_eq!(err, HostsError::InconsistentBlock);
}

#[test]
fn test_disable_block_in_middle() {
    let mut content = String::from("before\n");
    content.push_str(&default_block());
    content.push_str("after\n");
    let out = disable(&content).unwrap();
    assert_eq!(out, "before\nafter\n");
}

#[test]
fn test_enable_optimized_uses_store() {
    let mut store = OptimizedIpStore::new();
    store.records.push(StoreRecord {
        domain: String::from("github.com"),
        ip: String::from("1.1.1.1"),
    });
    let content = String::from("127.0.0.1 localhost\n");
    let enabled = enable_optimized(&content, &store).unwrap();
    assert!(enabled.contains("1.1.1.1 github.com\n"));
    assert!(!enabled.contains("140.82.112.4 github.com"));
    // domains without a committed address fall back to their first candidate
    assert!(enabled.contains("140.82.112.6 api.github.com\n"));
}

#[test]
fn test_enable_optimized_empty_store_uses_defaults() {
    let store = OptimizedIpStore::new();
    let content = String::from("127.0.0.1 localhost\n");
    let enabled = enable_optimized(&content, &store).unwrap();
    let plain = enable(&content).unwrap();
    assert_eq!(enabled, plain);
    assert!(enabled.contains("140.82.113.4 github.com\n"));
}

#[test]
fn test_default_content_bytes() {
    let bytes = build_default_hosts_content();
    assert_eq!(String::from_utf8(bytes).unwrap(), default_block());
}

#[test]
fn test_append_bytes_content() {
    let bytes = get_append_bytes();
    let text = String::from_utf8(bytes).unwrap();
    assert!(text.starts_with("\n# === FREE_TO_GITHUB START ===\n140.82.113.4 github.com\n"));
    assert!(text.ends_with("140.82.114.18 api.github.com\n# === FREE_TO_GITHUB END ===\n"));
    assert_eq!(text.lines().filter(|l| !l.is_empty()).count(), 26);
}

#[test]
fn test_store_operations() {
    let mut store = OptimizedIpStore::new();
    assert!(!store.has_optimized_ips());
    assert_eq!(store.get_optimized_ip("github.com"), None);

    store.records.push(StoreRecord {
        domain: String::from("github.com"),
        ip: String::from("140.82.113.4"),
    });
    assert!(store.has_optimized_ips());
    assert_eq!(store.get_optimized_ip("github.com"), Some(String::from("140.82.113.4")));
    assert_eq!(store.get_optimized_ip("api.github.com"), None);

    store.clear_optimized_ips();
    assert!(!store.has_optimized_ips());
    assert_eq!(store.get_optimized_ip("github.com"), None);
}

#[test]
fn test_get_hosts_path() {
    assert_eq!(get_hosts_path(false), "/etc/hosts");
    assert_eq!(get_hosts_path(true), "C:\\Windows\\System32\\drivers\\etc\\hosts");
}

#[test]
fn test_check_permission_outcomes() {
    assert!(check_permission(true, true).is_ok());
    assert_eq!(check_permission(false, true).unwrap_err(), PermissionError::FileNotFound);
    assert_eq!(check_permission(false, false).unwrap_err(), PermissionError::FileNotFound);
    assert_eq!(check_permission(true, false).unwrap_err(), PermissionError::PermissionDenied);

    let nf = PermissionError::FileNotFound.message("/etc/hosts", false);
    assert_eq!(nf, "hosts file not found: /etc/hosts");
    let denied_unix = PermissionError::PermissionDenied.message("/etc/hosts", false);
    assert_eq!(denied_unix, "No permission to modify hosts file! Please run with sudo");
    let denied_win = PermissionError::PermissionDenied.message("x", true);
    assert_eq!(denied_win, "No permission to modify hosts file! Please run as Administrator");
}
