//! The client's decisions: which address an IP endpoint reported, whether the
//! cached address lets a run stop early, and what to do with the DNS record.
use vstd::prelude::*;

use crate::cloudflare::{status_is_success, DnsRecord};
use crate::text::{dec, is_digit, is_ws, lemma_dec_digits, lemma_trim_padded, trim};
use crate::config::Config;
use crate::ipv4::{
    format_ipv4, lemma_cache_roundtrip, lemma_format_parse, lemma_parse_format, parse_ipv4, parse_ipv4_str,
    parse_ipv4_trimmed, parse_ipv4_trimmed_str, unspecified_ipv4, Ipv4Address,
};

verus! {

/// The address that an IP endpoint's reply reports: a success status and a
/// readable body holding an address, once trimmed.
pub open spec fn endpoint_ip(status: u16, body: Option<Seq<char>>) -> Option<Ipv4Address> {
    if 200 <= status && status < 300 {
        match body {
            Some(b) => parse_ipv4_trimmed(b),
            None => None,
        }
    } else {
        None
    }
}

/// The address that an IP endpoint's reply reports, if any (`body` is `None`
/// when the body could not be read).
pub fn ip_from_endpoint_reply(status: u16, body: Option<&str>) -> (r: Option<Ipv4Address>)
    ensures
        r == endpoint_ip(
            status,
            match body {
                Some(b) => Some(b@),
                None => None,
            },
        ),
{
    if !status_is_success(status) {
        return None;
    }
    match body {
        Some(b) => parse_ipv4_trimmed_str(b),
        None => None,
    }
}

/// What came back from one IP endpoint.
pub enum EndpointReply {
    /// The request could not be sent or got no response.
    RequestFailed,
    /// A response with its status code and its body (`None` when the body
    /// could not be read).
    Response { status: u16, body: Option<String> },
}

/// The address that a reply from an IP endpoint reports, if any.
pub open spec fn reply_ip(reply: EndpointReply) -> Option<Ipv4Address> {
    match reply {
        EndpointReply::RequestFailed => None,
        EndpointReply::Response { status, body } => endpoint_ip(
            status,
            match body {
                Some(b) => Some(b@),
                None => None,
            },
        ),
    }
}

/// The next step in asking the configured IP endpoints, in order, for the
/// public address.
#[derive(Clone, Copy, Debug, PartialEq, Eq, Structural)]
pub enum FetchStep {
    /// Ask the endpoint at this position.
    Ask(usize),
    /// An endpoint reported this address.
    Found(Ipv4Address),
    /// No endpoint reported an address.
    AllFailed,
}

/// The first step: ask the first endpoint, if there is one.
pub fn first_fetch_step(endpoint_count: usize) -> (s: FetchStep)
    ensures
        s == (if endpoint_count > 0 {
            FetchStep::Ask(0)
        } else {
            FetchStep::AllFailed
        }),
{
    if endpoint_count > 0 {
        FetchStep::Ask(0)
    } else {
        FetchStep::AllFailed
    }
}

/// The step after the endpoint at position `asked` replied with `reply`.
pub open spec fn fetch_step_after(endpoint_count: int, asked: int, reply: EndpointReply) -> FetchStep {
    match reply_ip(reply) {
        Some(ip) => FetchStep::Found(ip),
        None => if asked + 1 < endpoint_count {
            FetchStep::Ask((asked + 1) as usize)
        } else {
            FetchStep::AllFailed
        },
    }
}

/// Where the steps lead from asking the endpoint at position `asked`, when
/// the endpoints reply with `replies` (one reply per endpoint).
pub open spec fn fetch_run(replies: Seq<EndpointReply>, asked: int) -> FetchStep
    decreases replies.len() - asked,
{
    if 0 <= asked < replies.len() {
        match fetch_step_after(replies.len() as int, asked, replies[asked]) {
            FetchStep::Ask(next) => if asked < next {
                fetch_run(replies, next as int)
            } else {
                FetchStep::AllFailed
            },
            other => other,
        }
    } else {
        FetchStep::AllFailed
    }
}

/// The first address reported by the endpoints from position `from` on.
pub open spec fn first_reported_ip(replies: Seq<EndpointReply>, from: int) -> Option<Ipv4Address>
    decreases replies.len() - from,
{
    if 0 <= from < replies.len() {
        match reply_ip(replies[from]) {
            Some(ip) => Some(ip),
            None => first_reported_ip(replies, from + 1),
        }
    } else {
        None
    }
}

/// The step after the endpoint at position `asked` replied: stop with the
/// address it reported, else ask the next endpoint, else give up.
pub fn next_fetch_step(endpoint_count: usize, asked: usize, reply: &EndpointReply) -> (s: FetchStep)
    ensures
        s == fetch_step_after(endpoint_count as int, asked as int, *reply),
{
    let found = match reply {
        EndpointReply::RequestFailed => None,
        EndpointReply::Response { status, body } => match body {
            Some(b) => ip_from_endpoint_reply(*status, Some(b.as_str())),
            None => ip_from_endpoint_reply(*status, None),
        },
    };
    match found {
        Some(ip) => FetchStep::Found(ip),
        None => if endpoint_count > 0 && asked < endpoint_count - 1 {
            FetchStep::Ask(asked + 1)
        } else {
            FetchStep::AllFailed
        },
    }
}

/// The message reported when no endpoint reported an address.
pub fn all_endpoints_failed_message() -> (s: String)
    ensures
        s@ == "All IP fetching endpoints failed"@,
{
    String::from_str("All IP fetching endpoints failed")
}

/// The address held in the cache file's contents, if they hold one.
pub fn cached_ip_from_contents(contents: &str) -> (r: Option<Ipv4Address>)
    ensures
        r == parse_ipv4_trimmed(contents@),
{
    parse_ipv4_trimmed_str(contents)
}

/// Whether the run can stop before contacting Cloudflare: the cached address
/// equals the current one and `--force` was not given.
pub open spec fn cache_allows_skip(force: bool, cached: Option<Ipv4Address>, current: Ipv4Address) -> bool {
    !force && cached == Some(current)
}

/// Whether the run can stop before contacting Cloudflare.
pub fn can_skip_update(force: bool, cached: Option<Ipv4Address>, current: Ipv4Address) -> (r: bool)
    ensures
        r == cache_allows_skip(force, cached, current),
        force ==> !r,
{
    if force {
        return false;
    }
    match cached {
        Some(c) => c == current,
        None => false,
    }
}

/// What to do with the DNS record.
#[derive(Clone, Copy, Debug, PartialEq, Eq, Structural)]
pub enum SyncAction {
    /// The record already holds the address and settings; the cache file is
    /// refreshed unless this is a dry run.
    UpToDate { write_cache: bool },
    /// The record would change, but this is a dry run.
    DryRun,
    /// The record is to be updated.
    Update,
}

/// The comparison of the record with the current address and configuration.
#[derive(Clone, Copy, Debug, PartialEq, Eq, Structural)]
pub struct SyncPlan {
    /// The address the record holds (`0.0.0.0` when its content is not one).
    pub existing_ip: Ipv4Address,
    pub ip_changed: bool,
    pub settings_changed: bool,
    /// The TTL the record is to have: the configured one, else the record's.
    pub new_ttl: u32,
    /// Whether the record is to be proxied: as configured, else as it is.
    pub new_proxied: bool,
    pub action: SyncAction,
}

/// The plan for a record with the given content and settings.
pub open spec fn plan_for(
    config_proxied: Option<bool>,
    config_ttl: Option<u32>,
    content: Seq<char>,
    record_proxied: bool,
    record_ttl: u32,
    current: Ipv4Address,
    dry_run: bool,
) -> SyncPlan {
    let existing = match parse_ipv4(content) {
        Some(a) => a,
        None => Ipv4Address { a: 0, b: 0, c: 0, d: 0 },
    };
    let new_proxied = match config_proxied {
        Some(p) => p,
        None => record_proxied,
    };
    let new_ttl = match config_ttl {
        Some(t) => t,
        None => record_ttl,
    };
    let ip_changed = existing != current;
    let settings_changed = new_proxied != record_proxied || new_ttl != record_ttl;
    SyncPlan {
        existing_ip: existing,
        ip_changed,
        settings_changed,
        new_ttl,
        new_proxied,
        action: if !ip_changed && !settings_changed {
            SyncAction::UpToDate { write_cache: !dry_run }
        } else if dry_run {
            SyncAction::DryRun
        } else {
            SyncAction::Update
        },
    }
}

/// Compares the record that Cloudflare holds with the current address and
/// the configured settings, and decides what to do.
pub fn plan_sync(config: &Config, record: &DnsRecord, current: Ipv4Address, dry_run: bool) -> (p:
    SyncPlan)
    ensures
        p == plan_for(
            config.proxied,
            config.ttl,
            record.content@,
            record.proxied,
            record.ttl,
            current,
            dry_run,
        ),
{
    let existing = match parse_ipv4_str(record.content.as_str()) {
        Some(a) => a,
        None => unspecified_ipv4(),
    };
    let new_proxied = match config.proxied {
        Some(p) => p,
        None => record.proxied,
    };
    let new_ttl = match config.ttl {
        Some(t) => t,
        None => record.ttl,
    };
    let ip_changed = existing != current;
    let settings_changed = new_proxied != record.proxied || new_ttl != record.ttl;
    let action = if !ip_changed && !settings_changed {
        SyncAction::UpToDate { write_cache: !dry_run }
    } else if dry_run {
        SyncAction::DryRun
    } else {
        SyncAction::Update
    };
    SyncPlan { existing_ip: existing, ip_changed, settings_changed, new_ttl, new_proxied, action }
}

// ---------------------------------------------------------------------------
// Laws
// ---------------------------------------------------------------------------

/// The endpoints are asked in order, the first address that one of them
/// reports is the public address, and the fetch fails only when none reports
/// one.
pub proof fn lemma_fetch_finds_first_reported(replies: Seq<EndpointReply>, from: int)
    requires
        0 <= from,
        replies.len() <= usize::MAX,
    ensures
        fetch_run(replies, from) == match first_reported_ip(replies, from) {
            Some(ip) => FetchStep::Found(ip),
            None => FetchStep::AllFailed,
        },
    decreases replies.len() - from,
{
    if from < replies.len() {
        lemma_fetch_finds_first_reported(replies, from + 1);
    }
}

/// The planned settings are the configured ones, falling back to the
/// record's; the settings count as changed exactly when a planned setting
/// differs from the record's; the address counts as changed exactly when the
/// record does not hold the current address (content that is not an address
/// counts as `0.0.0.0`); and the record is updated exactly when something
/// changed and this is not a dry run.
pub proof fn lemma_plan_decisions(
    config_proxied: Option<bool>,
    config_ttl: Option<u32>,
    content: Seq<char>,
    record_proxied: bool,
    record_ttl: u32,
    current: Ipv4Address,
    dry_run: bool,
)
    ensures
        ({
            let p = plan_for(
                config_proxied,
                config_ttl,
                content,
                record_proxied,
                record_ttl,
                current,
                dry_run,
            );
            &&& config_proxied matches Some(x) ==> p.new_proxied == x
            &&& config_proxied is None ==> p.new_proxied == record_proxied
            &&& config_ttl matches Some(t) ==> p.new_ttl == t
            &&& config_ttl is None ==> p.new_ttl == record_ttl
            &&& p.settings_changed == (p.new_proxied != record_proxied || p.new_ttl != record_ttl)
            &&& p.ip_changed == (match parse_ipv4(content) {
                Some(a) => a != current,
                None => current != (Ipv4Address { a: 0, b: 0, c: 0, d: 0 }),
            })
            &&& (p.ip_changed || p.settings_changed) && !dry_run ==> p.action == SyncAction::Update
            &&& (p.ip_changed || p.settings_changed) && dry_run ==> p.action == SyncAction::DryRun
            &&& !(p.ip_changed || p.settings_changed) ==> p.action == (SyncAction::UpToDate {
                write_cache: !dry_run,
            })
            &&& p.action == SyncAction::Update <==> !dry_run && (p.ip_changed || p.settings_changed)
        }),
{
}

/// A configured setting that differs from the record's is pushed to
/// Cloudflare (outside a dry run), even when the address is unchanged.
pub proof fn lemma_config_change_is_pushed(
    config_proxied: Option<bool>,
    config_ttl: Option<u32>,
    record_proxied: bool,
    record_ttl: u32,
    current: Ipv4Address,
)
    requires
        (config_proxied matches Some(x) && x != record_proxied) || (config_ttl matches Some(t)
            && t != record_ttl),
    ensures
        ({
            let p = plan_for(
                config_proxied,
                config_ttl,
                format_ipv4(current),
                record_proxied,
                record_ttl,
                current,
                false,
            );
            &&& !p.ip_changed
            &&& p.settings_changed
            &&& p.action == SyncAction::Update
        }),
{
    lemma_parse_format(current);
}

/// A successful reply whose body is an address in dotted-decimal form, with
/// any whitespace around it, reports that address; a reply with any other
/// status reports none; and whatever address a successful reply reports is
/// exactly what its body holds once trimmed.
pub proof fn lemma_endpoint_reports_body_address(
    status: u16,
    a: Ipv4Address,
    w1: Seq<char>,
    w2: Seq<char>,
    body: Option<Seq<char>>,
)
    requires
        forall|i: int| 0 <= i < w1.len() ==> is_ws(#[trigger] w1[i]),
        forall|i: int| 0 <= i < w2.len() ==> is_ws(#[trigger] w2[i]),
    ensures
        200 <= status < 300 ==> endpoint_ip(status, Some(w1 + format_ipv4(a) + w2)) == Some(a),
        !(200 <= status < 300) ==> endpoint_ip(status, body) is None,
        body is None ==> endpoint_ip(status, body) is None,
        endpoint_ip(status, body) matches Some(b) ==> body matches Some(t) && trim(t)
            == format_ipv4(b),
{
    let s = format_ipv4(a);
    lemma_dec_digits(a.a as nat);
    lemma_dec_digits(a.d as nat);
    let d0 = dec(a.a as nat);
    let d3 = dec(a.d as nat);
    assert(s[0] == d0[0]);
    assert(s.last() == d3.last());
    assert(is_digit(d0[0]));
    assert(is_digit(d3[d3.len() - 1]));
    lemma_trim_padded(w1, s, w2);
    lemma_parse_format(a);
    if let Some(t) = body {
        if parse_ipv4(trim(t)) is Some {
            lemma_format_parse(trim(t));
        }
    }
}

/// Once the record has been updated as planned (its content the current
/// address, its settings the planned ones), planning again with the same
/// configuration finds it up to date.
pub proof fn lemma_update_converges(
    config_proxied: Option<bool>,
    config_ttl: Option<u32>,
    content: Seq<char>,
    record_proxied: bool,
    record_ttl: u32,
    current: Ipv4Address,
    dry_run: bool,
    next_dry_run: bool,
)
    ensures
        ({
            let p = plan_for(
                config_proxied,
                config_ttl,
                content,
                record_proxied,
                record_ttl,
                current,
                dry_run,
            );
            let q = plan_for(
                config_proxied,
                config_ttl,
                format_ipv4(current),
                p.new_proxied,
                p.new_ttl,
                current,
                next_dry_run,
            );
            &&& !q.ip_changed
            &&& !q.settings_changed
            &&& q.action == SyncAction::UpToDate { write_cache: !next_dry_run }
        }),
{
    lemma_parse_format(current);
}

/// Once the current address has been written to the cache file, a later run
/// that finds the same address stops before contacting Cloudflare, unless
/// `--force` is given.
pub proof fn lemma_second_run_skips(current: Ipv4Address, force: bool)
    ensures
        cache_allows_skip(force, parse_ipv4_trimmed(format_ipv4(current)), current) == !force,
{
    lemma_cache_roundtrip(current);
}

/// A dry run neither updates the record nor writes the cache file.
pub proof fn lemma_dry_run_changes_nothing(
    config_proxied: Option<bool>,
    config_ttl: Option<u32>,
    content: Seq<char>,
    record_proxied: bool,
    record_ttl: u32,
    current: Ipv4Address,
)
    ensures
        ({
            let p = plan_for(
                config_proxied,
                config_ttl,
                content,
                record_proxied,
                record_ttl,
                current,
                true,
            );
            p.action != SyncAction::Update && p.action != (SyncAction::UpToDate { write_cache: true })
        }),
{
}

/// Without `proxied` and `ttl` in the configuration the record keeps its
/// settings, and only a change of address leads to an update.
pub proof fn lemma_unset_overrides_preserve(
    content: Seq<char>,
    record_proxied: bool,
    record_ttl: u32,
    current: Ipv4Address,
    dry_run: bool,
)
    ensures
        ({
            let p = plan_for(None, None, content, record_proxied, record_ttl, current, dry_run);
            &&& p.new_proxied == record_proxied
            &&& p.new_ttl == record_ttl
            &&& !p.settings_changed
            &&& (p.action == SyncAction::Update) == (p.ip_changed && !dry_run)
        }),
{
}

} // verus!
