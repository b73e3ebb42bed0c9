use free_to_github::hosts::OptimizedIpStore;
use free_to_github::network::{
    find_best_ip_for_domain, get_domain_candidates, get_quality_color, get_quality_rating,
    results_to_display, run_scan, test_key_domains, DomainEntry, ScanRecord, ScanResult,
};

fn entry(domain: &str, ips: &[&str]) -> DomainEntry {
    DomainEntry {
        domain: String::from(domain),
        candidate_ips: ips.iter().map(|s| String::from(*s)).collect(),
        best_ip: None,
        best_latency_ms: None,
    }
}

#[test]
fn test_domain_candidates() {
    let domains = get_domain_candidates();
    assert!(!domains.is_empty());
    assert!(domains.iter().any(|d| d.domain == "github.com"));
}

#[test]
fn test_quality_rating() {
    assert_eq!(get_quality_rating(30), "极佳");
    assert_eq!(get_quality_rating(80), "良好");
    assert_eq!(get_quality_rating(150), "一般");
    assert_eq!(get_quality_rating(300), "较慢");
    assert_eq!(get_quality_rating(1000), "很慢");
}

#[test]
fn test_registry_shape() {
    let domains = get_domain_candidates();
    assert_eq!(domains.len(), 13);
    for d in domains.iter() {
        assert!(!d.candidate_ips.is_empty());
        assert!(d.best_ip.is_none());
        assert!(d.best_latency_ms.is_none());
    }
    assert_eq!(domains[0].domain, "github.com");
    assert_eq!(domains[0].candidate_ips[0], "140.82.112.4");
    assert_eq!(domains[0].candidate_ips.len(), 5);
}

#[test]
fn test_selector_picks_lowest() {
    let mut e = entry("github.com", &["1.1.1.1", "2.2.2.2", "3.3.3.3"]);
    let probes = vec![Some(90u64), Some(40), None];
    let best = find_best_ip_for_domain(&mut e, &probes).unwrap();
    assert_eq!(best.ip, "2.2.2.2");
    assert_eq!(best.domain, "github.com");
    assert_eq!(best.latency_ms, Some(40));
    assert!(best.success);
    assert_eq!(e.best_ip, Some(String::from("2.2.2.2")));
    assert_eq!(e.best_latency_ms, Some(40));
}

#[test]
fn test_selector_tie_keeps_first() {
    let mut e = entry("github.com", &["1.1.1.1", "2.2.2.2"]);
    let probes = vec![Some(40u64), Some(40)];
    let best = find_best_ip_for_domain(&mut e, &probes).unwrap();
    assert_eq!(best.ip, "1.1.1.1");
    assert_eq!(e.best_ip, Some(String::from("1.1.1.1")));
}

#[test]
fn test_selector_all_failed() {
    let mut e = entry("github.com", &["1.1.1.1", "2.2.2.2"]);
    let probes = vec![None, None];
    assert!(find_best_ip_for_domain(&mut e, &probes).is_none());
    assert!(e.best_ip.is_none());
    assert!(e.best_latency_ms.is_none());
}

#[test]
fn test_scan_scenario() {
    let mut entries = vec![entry("github.com", &["1.1.1.1", "2.2.2.2"])];
    let probes = vec![vec![Some(40u64), None]];
    let result = run_scan(&mut entries, &probes);
    assert_eq!(result.len(), 1);
    assert_eq!(result.records[0].domain, "github.com");
    assert_eq!(result.records[0].ip, "1.1.1.1");
    assert_eq!(result.records[0].latency_ms, 40);

    let mut store = OptimizedIpStore::new();
    store.set_optimized_ips(&result);
    assert!(store.has_optimized_ips());
    assert_eq!(store.get_optimized_ip("github.com"), Some(String::from("1.1.1.1")));

    let content = String::from("127.0.0.1 localhost\n");
    let enabled = free_to_github::hosts::enable_optimized(&content, &store).unwrap();
    assert!(enabled.contains("1.1.1.1 github.com\n"));

    let fresh = OptimizedIpStore::new();
    let plain = free_to_github::hosts::enable_optimized(&content, &fresh).unwrap();
    assert!(plain.contains("140.82.113.4 github.com\n"));
}

#[test]
fn test_scan_skips_failed_domains() {
    let mut entries = vec![
        entry("github.com", &["1.1.1.1"]),
        entry("api.github.com", &["2.2.2.2", "3.3.3.3"]),
    ];
    let probes = vec![vec![None], vec![Some(75u64), Some(60)]];
    let result = run_scan(&mut entries, &probes);
    assert_eq!(result.len(), 1);
    assert_eq!(result.records[0].domain, "api.github.com");
    assert_eq!(result.records[0].ip, "3.3.3.3");
    assert_eq!(result.records[0].latency_ms, 60);
    assert!(entries[0].best_ip.is_none());
    assert_eq!(entries[1].best_ip, Some(String::from("3.3.3.3")));
}

#[test]
fn test_key_domains_reports_three() {
    let registry = get_domain_candidates();
    let mut probes: Vec<Vec<Option<u64>>> = Vec::new();
    for e in registry.iter() {
        probes.push(e.candidate_ips.iter().map(|_| None).collect());
    }
    probes[0][1] = Some(25);
    let results = test_key_domains(&probes);
    assert_eq!(results.len(), 3);
    assert_eq!(results[0].domain, "github.com");
    assert!(results[0].success);
    assert_eq!(results[0].ip, "140.82.113.4");
    assert_eq!(results[0].latency_ms, Some(25));
    assert_eq!(results[1].domain, "api.github.com");
    assert!(!results[1].success);
    assert_eq!(results[1].ip, "140.82.112.6");
    assert_eq!(results[1].latency_ms, None);
    assert_eq!(results[2].domain, "raw.githubusercontent.com");
    assert!(!results[2].success);
    assert_eq!(results[2].ip, "185.199.108.133");
}

#[test]
fn test_quality_color_values() {
    assert_eq!(get_quality_color(30), (80, 220, 120));
    assert_eq!(get_quality_color(80), (120, 200, 80));
    assert_eq!(get_quality_color(150), (220, 180, 50));
    assert_eq!(get_quality_color(300), (255, 140, 60));
    assert_eq!(get_quality_color(1000), (255, 80, 80));
}

#[test]
fn test_results_to_display_sorted() {
    let result = ScanResult {
        records: vec![
            ScanRecord {
                domain: String::from("github.com"),
                ip: String::from("1.1.1.1"),
                latency_ms: 300,
            },
            ScanRecord {
                domain: String::from("api.github.com"),
                ip: String::from("2.2.2.2"),
                latency_ms: 40,
            },
            ScanRecord {
                domain: String::from("gist.github.com"),
                ip: String::from("3.3.3.3"),
                latency_ms: 120,
            },
        ],
    };
    let rows = results_to_display(&result);
    assert_eq!(rows.len(), 3);
    assert_eq!(rows[0].domain, "api.github.com");
    assert_eq!(rows[0].latency_ms, 40);
    assert_eq!(rows[0].quality, "极佳");
    assert_eq!(rows[0].color, (80, 220, 120));
    assert_eq!(rows[1].domain, "gist.github.com");
    assert_eq!(rows[1].quality, "一般");
    assert_eq!(rows[2].domain, "github.com");
    assert_eq!(rows[2].quality, "较慢");
}
