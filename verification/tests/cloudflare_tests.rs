use dyndns::cloudflare::{
    check_update_response, describe_cf_error, error_list, get_record_failure, record_url,
    records_url, select_dns_record, status_is_success, status_line, status_line_with_reason,
    update_payload, update_record_failure, CloudflareError, DnsRecord, DnsRecordsResponse,
    UpdateResponse,
};
use dyndns::ipv4::Ipv4Address;

fn err(code: i32, message: &str) -> CloudflareError {
    CloudflareError { code, message: message.to_string() }
}

fn record(id: &str, record_type: &str, name: &str, content: &str) -> DnsRecord {
    DnsRecord {
        id: id.to_string(),
        record_type: record_type.to_string(),
        name: name.to_string(),
        content: content.to_string(),
        proxied: false,
        ttl: 300,
    }
}

#[test]
fn success_statuses_are_the_2xx_class() {
    assert!(status_is_success(200));
    assert!(status_is_success(204));
    assert!(status_is_success(299));
    assert!(!status_is_success(199));
    assert!(!status_is_success(300));
    assert!(!status_is_success(404));
}

#[test]
fn status_lines_carry_the_reason_phrase() {
    assert_eq!(status_line(404), "404 Not Found");
    assert_eq!(status_line(200), "200 OK");
    assert_eq!(status_line(503), "503 Service Unavailable");
    assert_eq!(status_line(299), "299 <unknown status code>");
    assert_eq!(status_line_with_reason(418, Some("I'm a teapot")), "418 I'm a teapot");
    assert_eq!(status_line_with_reason(599, None), "599 <unknown status code>");
}

#[test]
fn error_entries_are_joined() {
    let errors = vec![err(9109, "Invalid access token"), err(-3, "negative"), err(0, "")];
    assert_eq!(error_list(&errors), "[9109]: Invalid access token, [-3]: negative, [0]: ");
    assert_eq!(error_list(&vec![]), "");
}

#[test]
fn describes_structured_errors() {
    let errors = vec![err(10000, "Authentication error")];
    assert_eq!(
        describe_cf_error(403, Some(&errors), "{\"errors\":[...]}"),
        "status 403 Forbidden: [10000]: Authentication error"
    );
}

#[test]
fn falls_back_to_the_trimmed_body() {
    assert_eq!(describe_cf_error(502, None, "  <html>bad gateway</html>\n"), "status 502 Bad Gateway: <html>bad gateway</html>");
    assert_eq!(describe_cf_error(400, Some(&vec![]), " {\"errors\":[]} "), "status 400 Bad Request: {\"errors\":[]}");
}

#[test]
fn http_failures_name_the_request() {
    assert_eq!(get_record_failure(404, None, "nope"), "Cloudflare API error for GET record: status 404 Not Found: nope");
    assert_eq!(
        update_record_failure(429, Some(&vec![err(971, "Please wait")]), ""),
        "Cloudflare API error for PATCH record: status 429 Too Many Requests: [971]: Please wait"
    );
}

#[test]
fn request_urls() {
    assert_eq!(records_url("z1", "home.example.com"), "https://api.cloudflare.com/client/v4/zones/z1/dns_records?name=home.example.com");
    assert_eq!(record_url("z1", "r9"), "https://api.cloudflare.com/client/v4/zones/z1/dns_records/r9");
}

#[test]
fn update_payload_fields() {
    let p = update_payload("home.example.com", Ipv4Address { a: 203, b: 0, c: 113, d: 9 }, 120, true);
    assert_eq!(p.record_type, "A");
    assert_eq!(p.name, "home.example.com");
    assert_eq!(p.content, "203.0.113.9");
    assert_eq!(p.ttl, 120);
    assert!(p.proxied);
}

#[test]
fn selects_the_single_matching_a_record() {
    let resp = DnsRecordsResponse {
        result: vec![
            record("1", "AAAA", "home.example.com", "::1"),
            record("2", "A", "other.example.com", "1.1.1.1"),
            record("3", "A", "home.example.com", "2.2.2.2"),
        ],
        success: true,
        errors: vec![],
    };
    let r = select_dns_record(resp, "z", "home.example.com").unwrap();
    assert_eq!(r.id, "3");
    assert_eq!(r.content, "2.2.2.2");
}

#[test]
fn several_matching_records_are_refused() {
    let resp = DnsRecordsResponse {
        result: vec![
            record("1", "A", "home.example.com", "1.1.1.1"),
            record("2", "A", "home.example.com", "2.2.2.2"),
            record("3", "A", "home.example.com", "3.3.3.3"),
        ],
        success: true,
        errors: vec![],
    };
    assert_eq!(
        select_dns_record(resp, "zone9", "home.example.com").err().unwrap(),
        "Multiple A records found for name 'home.example.com' in zone 'zone9'; expected exactly one"
    );
}

#[test]
fn missing_record_is_reported() {
    let resp = DnsRecordsResponse {
        result: vec![record("1", "CNAME", "home.example.com", "x")],
        success: true,
        errors: vec![],
    };
    assert_eq!(
        select_dns_record(resp, "zone9", "home.example.com").err().unwrap(),
        "No existing A record found for name 'home.example.com' in zone 'zone9'"
    );
    let empty = DnsRecordsResponse { result: vec![], success: true, errors: vec![] };
    assert!(select_dns_record(empty, "z", "n").is_err());
}

#[test]
fn unsuccessful_listing_reports_its_errors() {
    let resp = DnsRecordsResponse {
        result: vec![record("1", "A", "n", "1.1.1.1")],
        success: false,
        errors: vec![err(7003, "Could not route"), err(7000, "No route")],
    };
    assert_eq!(
        select_dns_record(resp, "z", "n").err().unwrap(),
        "Cloudflare API errors: [7003]: Could not route, [7000]: No route"
    );
}

#[test]
fn update_reply_is_checked() {
    assert_eq!(check_update_response(&UpdateResponse { success: true, errors: vec![err(1, "ignored")] }), Ok(()));
    assert_eq!(
        check_update_response(&UpdateResponse { success: false, errors: vec![err(81057, "Record already exists.")] }),
        Err("Cloudflare API errors during update: [81057]: Record already exists.".to_string())
    );
}
