use rashamon::http_client::{fetch_outcome, HttpClient};
use rashamon::protocol::NetworkRequest;

fn req(url: &str) -> NetworkRequest {
    NetworkRequest {
        url: url.to_string(),
        method: "GET".to_string(),
        headers: Vec::new(),
        body: None,
        origin: String::new(),
    }
}

#[test]
fn execute_blocks_ads_and_serves_stub_otherwise() {
    let mut c = HttpClient::new();
    let r = c.execute(req("https://ad.doubleclick.net/x"));
    assert!(r.blocked);
    assert_eq!(r.status, 0);
    assert_eq!(r.block_reason.as_deref(), Some("doubleclick.net"));
    assert!(r.body.is_empty());

    let r = c.execute(req("https://example.com/"));
    assert!(!r.blocked);
    assert_eq!(r.status, 200);
    assert_eq!(r.headers, vec![("content-type".to_string(), "text/html; charset=utf-8".to_string())]);
    assert!(String::from_utf8(r.body).unwrap().contains("Rashamon Arc"));
    assert_eq!(c.adblock_stats(), (1, 2));
}

#[test]
fn fetch_gate_reports_blocking_rule() {
    let mut c = HttpClient::new();
    assert_eq!(c.fetch_gate("https://www.facebook.com/tr?x"), Err("Blocked: facebook.com/tr".to_string()));
    assert_eq!(c.fetch_gate("https://example.com/"), Ok(()));
}

#[test]
fn toggling_a_default_rule_unblocks_it() {
    let mut c = HttpClient::new();
    c.adblock_toggle("doubleclick.net");
    assert_eq!(c.fetch_gate("https://ad.doubleclick.net/"), Ok(()));
    c.adblock_toggle("DoubleClick.net ");
    assert!(c.fetch_gate("https://ad.doubleclick.net/").is_err());
}

#[test]
fn fetch_outcome_reads_status_marker() {
    let ok = fetch_outcome("<html>hi</html>\u{4}RASHAMON_STATUS:200\n", Some(0), true);
    assert_eq!(ok, Ok("<html>hi</html>".to_string()));
    assert_eq!(
        fetch_outcome("nope\u{4}RASHAMON_STATUS:404", Some(0), true),
        Err("Page not found (HTTP 404)".to_string())
    );
    assert_eq!(
        fetch_outcome("x\u{4}RASHAMON_STATUS:403", Some(0), true),
        Err("Access denied (HTTP 403)".to_string())
    );
    assert_eq!(
        fetch_outcome("x\u{4}RASHAMON_STATUS:502", Some(0), true),
        Err("Server error (HTTP 502)".to_string())
    );
    assert_eq!(
        fetch_outcome("x\u{4}RASHAMON_STATUS:418", Some(0), true),
        Err("HTTP error 418".to_string())
    );
    assert_eq!(
        fetch_outcome("  \u{4}RASHAMON_STATUS:000", Some(0), true),
        Err("Connection failed (no response)".to_string())
    );
}

#[test]
fn fetch_outcome_without_output_uses_exit_code() {
    assert_eq!(fetch_outcome("", Some(6), false), Err("Could not resolve host (DNS failure)".to_string()));
    assert_eq!(fetch_outcome("", Some(7), false), Err("Failed to connect to server".to_string()));
    assert_eq!(fetch_outcome("", Some(28), false), Err("Request timed out".to_string()));
    assert_eq!(fetch_outcome("", Some(35), false), Err("SSL/TLS handshake failed".to_string()));
    assert_eq!(fetch_outcome("", Some(-3), false), Err("curl error -3".to_string()));
    assert_eq!(fetch_outcome("", None, false), Err("Connection failed".to_string()));
}

#[test]
fn fetch_outcome_without_marker_trusts_exit_status() {
    assert_eq!(fetch_outcome("body", Some(0), true), Ok("body".to_string()));
    assert_eq!(fetch_outcome("body", Some(1), false), Err("Connection failed".to_string()));
}
