use dyndns::cloudflare::DnsRecord;
use dyndns::config::Config;
use dyndns::ipv4::{format_ipv4_string, Ipv4Address};
use dyndns::sync::{
    all_endpoints_failed_message, cached_ip_from_contents, can_skip_update, first_fetch_step,
    ip_from_endpoint_reply, next_fetch_step, plan_sync, EndpointReply, FetchStep, SyncAction,
};

fn addr(a: u8, b: u8, c: u8, d: u8) -> Ipv4Address {
    Ipv4Address { a, b, c, d }
}

fn config(proxied: Option<bool>, ttl: Option<u32>) -> Config {
    Config {
        zone_id: "z".to_string(),
        record_name: "home.example.com".to_string(),
        proxied,
        ttl,
        cache_file: "./dyndns.cache".to_string(),
        endpoints: vec!["https://icanhazip.com".to_string()],
    }
}

fn record(content: &str, proxied: bool, ttl: u32) -> DnsRecord {
    DnsRecord {
        id: "r".to_string(),
        record_type: "A".to_string(),
        name: "home.example.com".to_string(),
        content: content.to_string(),
        proxied,
        ttl,
    }
}

#[test]
fn endpoint_reply_with_an_address() {
    assert_eq!(ip_from_endpoint_reply(200, Some("198.51.100.4\n")), Some(addr(198, 51, 100, 4)));
    assert_eq!(ip_from_endpoint_reply(500, Some("198.51.100.4")), None);
    assert_eq!(ip_from_endpoint_reply(200, Some("<html>")), None);
    assert_eq!(ip_from_endpoint_reply(200, None), None);
}

#[test]
fn fetching_stops_at_the_first_address() {
    assert_eq!(first_fetch_step(3), FetchStep::Ask(0));
    assert_eq!(first_fetch_step(0), FetchStep::AllFailed);
    assert_eq!(next_fetch_step(3, 0, &EndpointReply::RequestFailed), FetchStep::Ask(1));
    let bad = EndpointReply::Response { status: 404, body: None };
    assert_eq!(next_fetch_step(3, 1, &bad), FetchStep::Ask(2));
    let good = EndpointReply::Response { status: 200, body: Some(" 1.2.3.4 ".to_string()) };
    assert_eq!(next_fetch_step(3, 1, &good), FetchStep::Found(addr(1, 2, 3, 4)));
    let garbage = EndpointReply::Response { status: 200, body: Some("nope".to_string()) };
    assert_eq!(next_fetch_step(3, 2, &garbage), FetchStep::AllFailed);
    assert_eq!(next_fetch_step(1, 0, &EndpointReply::RequestFailed), FetchStep::AllFailed);
    assert_eq!(next_fetch_step(0, 5, &EndpointReply::RequestFailed), FetchStep::AllFailed);
    assert_eq!(all_endpoints_failed_message(), "All IP fetching endpoints failed");
}

#[test]
fn cache_contents() {
    assert_eq!(cached_ip_from_contents("10.1.2.3"), Some(addr(10, 1, 2, 3)));
    assert_eq!(cached_ip_from_contents("10.1.2.3\n"), Some(addr(10, 1, 2, 3)));
    assert_eq!(cached_ip_from_contents("garbage"), None);
    assert_eq!(cached_ip_from_contents(""), None);
}

#[test]
fn cache_hit_skips_unless_forced() {
    let ip = addr(1, 2, 3, 4);
    assert!(can_skip_update(false, Some(ip), ip));
    assert!(!can_skip_update(true, Some(ip), ip));
    assert!(!can_skip_update(false, Some(addr(1, 2, 3, 5)), ip));
    assert!(!can_skip_update(false, None, ip));
}

#[test]
fn second_run_after_writing_the_cache_skips() {
    let ip = addr(192, 0, 2, 10);
    let written = format_ipv4_string(ip);
    assert!(can_skip_update(false, cached_ip_from_contents(&written), ip));
    assert!(!can_skip_update(true, cached_ip_from_contents(&written), ip));
}

#[test]
fn up_to_date_record_only_refreshes_the_cache() {
    let p = plan_sync(&config(None, None), &record("1.2.3.4", true, 300), addr(1, 2, 3, 4), false);
    assert!(!p.ip_changed && !p.settings_changed);
    assert_eq!(p.action, SyncAction::UpToDate { write_cache: true });
    let p = plan_sync(&config(None, None), &record("1.2.3.4", true, 300), addr(1, 2, 3, 4), true);
    assert_eq!(p.action, SyncAction::UpToDate { write_cache: false });
}

#[test]
fn changed_address_is_updated() {
    let p = plan_sync(&config(None, None), &record("1.2.3.4", false, 1), addr(5, 6, 7, 8), false);
    assert!(p.ip_changed);
    assert!(!p.settings_changed);
    assert_eq!(p.existing_ip, addr(1, 2, 3, 4));
    assert_eq!((p.new_ttl, p.new_proxied), (1, false));
    assert_eq!(p.action, SyncAction::Update);
}

#[test]
fn configured_settings_override_the_record() {
    let p = plan_sync(&config(Some(true), Some(120)), &record("1.2.3.4", false, 300), addr(1, 2, 3, 4), false);
    assert!(!p.ip_changed);
    assert!(p.settings_changed);
    assert_eq!((p.new_ttl, p.new_proxied), (120, true));
    assert_eq!(p.action, SyncAction::Update);
}

#[test]
fn dry_run_changes_nothing() {
    let p = plan_sync(&config(Some(true), None), &record("9.9.9.9", false, 300), addr(1, 2, 3, 4), true);
    assert_eq!(p.action, SyncAction::DryRun);
}

#[test]
fn invalid_record_content_counts_as_unspecified() {
    let p = plan_sync(&config(None, None), &record("not-an-ip", false, 300), addr(1, 2, 3, 4), false);
    assert_eq!(p.existing_ip, addr(0, 0, 0, 0));
    assert_eq!(p.action, SyncAction::Update);
    let p = plan_sync(&config(None, None), &record("garbage", false, 300), addr(0, 0, 0, 0), false);
    assert_eq!(p.action, SyncAction::UpToDate { write_cache: true });
}

#[test]
fn updated_record_is_then_up_to_date() {
    let cfg = config(Some(true), Some(60));
    let ip = addr(203, 0, 113, 50);
    let p = plan_sync(&cfg, &record("198.51.100.1", false, 300), ip, false);
    assert_eq!(p.action, SyncAction::Update);
    let updated = record(&format_ipv4_string(ip), p.new_proxied, p.new_ttl);
    let q = plan_sync(&cfg, &updated, ip, false);
    assert_eq!(q.action, SyncAction::UpToDate { write_cache: true });
}
