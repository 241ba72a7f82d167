//! The Cloudflare DNS API as the client uses it: request URLs, the update
//! payload, and what the client makes of the replies.
use vstd::prelude::*;

use crate::ipv4::{format_ipv4, format_ipv4_string, Ipv4Address};
use crate::text::{dec, int_text, join_seq, lemma_join_seq_push, push_char, push_decimal, push_int,
    str_equal, trim, trim_str};

verus! {

/// One entry of the `errors` array of a Cloudflare reply.
pub struct CloudflareError {
    pub code: i32,
    pub message: String,
}

/// A DNS record as Cloudflare reports it.
pub struct DnsRecord {
    pub id: String,
    pub record_type: String,
    pub name: String,
    pub content: String,
    pub proxied: bool,
    pub ttl: u32,
}

/// The reply to a request that lists DNS records.
pub struct DnsRecordsResponse {
    pub result: Vec<DnsRecord>,
    pub success: bool,
    pub errors: Vec<CloudflareError>,
}

/// The reply to a request that updates a DNS record.
pub struct UpdateResponse {
    pub success: bool,
    pub errors: Vec<CloudflareError>,
}

/// The body of a request that updates an `A` record.
pub struct UpdateDnsRecordPayload {
    pub record_type: String,
    pub name: String,
    pub content: String,
    pub ttl: u32,
    pub proxied: bool,
}

// ---------------------------------------------------------------------------
// HTTP status lines
// ---------------------------------------------------------------------------

/// Whether an HTTP status code denotes success (the 2xx class).
pub fn status_is_success(code: u16) -> (ok: bool)
    ensures
        ok == (200 <= code && code < 300),
{
    200 <= code && code < 300
}

/// The reason phrase that the `http` crate's table gives a status code.
pub uninterp spec fn status_reason(code: u16) -> Option<Seq<char>>;

/// Calls `StatusCode::from_u16` and `StatusCode::canonical_reason` of the
/// `http` crate (as re-exported by `reqwest`). The contract claims only that
/// the result is a function of the code, named `status_reason`; which phrase
/// each code has is the crate's table and is not stated.
#[verifier::external_body]
fn canonical_reason(code: u16) -> (r: Option<&'static str>)
    ensures
        match r {
            Some(t) => status_reason(code) == Some(t@),
            None => status_reason(code) is None,
        },
{
    match reqwest::StatusCode::from_u16(code) {
        Ok(status) => status.canonical_reason(),
        Err(_) => None,
    }
}

/// The text that a status code displays as: the number, a space, and the
/// reason phrase, or `<unknown status code>` when there is none.
pub open spec fn status_text(code: u16, reason: Option<Seq<char>>) -> Seq<char> {
    dec(code as nat) + seq![' '] + match reason {
        Some(r) => r,
        None => "<unknown status code>"@,
    }
}

/// The display text of a status code, given its reason phrase.
pub fn status_line_with_reason(code: u16, reason: Option<&str>) -> (s: String)
    ensures
        s@ == status_text(
            code,
            match reason {
                Some(r) => Some(r@),
                None => None,
            },
        ),
{
    let mut s = String::new();
    push_decimal(&mut s, code as u64);
    push_char(&mut s, ' ');
    match reason {
        Some(r) => s.append(r),
        None => s.append("<unknown status code>"),
    }
    s
}

/// The display text of a status code, with the `http` crate's reason phrase.
pub fn status_line(code: u16) -> (s: String)
    ensures
        s@ == status_text(code, status_reason(code)),
{
    let reason = canonical_reason(code);
    status_line_with_reason(code, reason)
}

// ---------------------------------------------------------------------------
// Error descriptions
// ---------------------------------------------------------------------------

/// How one error entry is shown: `[code]: message`.
pub open spec fn error_entry_text(e: CloudflareError) -> Seq<char> {
    seq!['['] + int_text(e.code as int) + "]: "@ + e.message@
}

/// The error entries, each shown as `[code]: message`, joined by `, `.
pub open spec fn error_list_text(errors: Seq<CloudflareError>) -> Seq<char> {
    join_seq(errors.map_values(|e: CloudflareError| error_entry_text(e)), ", "@)
}

/// The error entries of a reply, each shown as `[code]: message`, joined by `, `.
pub fn error_list(errors: &Vec<CloudflareError>) -> (s: String)
    ensures
        s@ == error_list_text(errors@),
{
    let n = errors.len();
    let mut s = String::new();
    let ghost shown = errors@.map_values(|e: CloudflareError| error_entry_text(e));
    let mut i: usize = 0;
    assert(shown.take(0) =~= Seq::<Seq<char>>::empty());
    while i < n
        invariant
            i <= n,
            n == errors.len(),
            shown == errors@.map_values(|e: CloudflareError| error_entry_text(e)),
            s@ == join_seq(shown.take(i as int), ", "@),
        decreases n - i,
    {
        let ghost before = s@;
        if i > 0 {
            s.append(", ");
        }
        let ghost mid = s@;
        push_char(&mut s, '[');
        push_int(&mut s, errors[i].code as i64);
        s.append("]: ");
        s.append(errors[i].message.as_str());
        proof {
            assert(s@ =~= mid + error_entry_text(errors@[i as int]));
            assert(shown.take(i + 1) =~= shown.take(i as int).push(shown[i as int]));
            lemma_join_seq_push(shown.take(i as int), shown[i as int], ", "@);
        }
        i = i + 1;
    }
    assert(shown.take(n as int) =~= shown);
    s
}

/// The description of a failed Cloudflare request: the status, then the
/// reply's error entries when its body holds a non-empty `errors` array
/// (`errors` is what the body parses to, if it parses), else the trimmed body.
pub open spec fn describe_text(
    status: Seq<char>,
    errors: Option<Seq<CloudflareError>>,
    body: Seq<char>,
) -> Seq<char> {
    "status "@ + status + ": "@ + match errors {
        Some(es) => if es.len() > 0 {
            error_list_text(es)
        } else {
            trim(body)
        },
        None => trim(body),
    }
}

/// A failed request is described by its status followed by the body's error
/// entries, each as `[code]: message`, separated by `, `; a body with no
/// entries (an empty `errors` array, or one that is not a Cloudflare error
/// reply) is described by its trimmed text instead.
pub proof fn lemma_describe_cases(
    status: Seq<char>,
    body: Seq<char>,
    e1: CloudflareError,
    e2: CloudflareError,
)
    ensures
        describe_text(status, Some(Seq::empty()), body) == describe_text(status, None, body),
        describe_text(status, None, body) == "status "@ + status + ": "@ + trim(body),
        error_list_text(seq![e1]) == seq!['['] + int_text(e1.code as int) + "]: "@ + e1.message@,
        error_list_text(seq![e1, e2]) == error_list_text(seq![e1]) + ", "@ + error_list_text(
            seq![e2],
        ),
        describe_text(status, Some(seq![e1, e2]), body) == "status "@ + status + ": "@
            + error_list_text(seq![e1]) + ", "@ + error_list_text(seq![e2]),
{
    let f = |e: CloudflareError| error_entry_text(e);
    assert(seq![e1].map_values(f) =~= seq![error_entry_text(e1)]);
    assert(seq![e2].map_values(f) =~= seq![error_entry_text(e2)]);
    let two = seq![e1, e2].map_values(f);
    assert(two =~= seq![error_entry_text(e1), error_entry_text(e2)]);
    assert(two.drop_first() =~= seq![error_entry_text(e2)]);
    assert(join_seq(two, ", "@) == error_entry_text(e1) + ", "@ + join_seq(two.drop_first(), ", "@));
    let x = "status "@ + status + ": "@;
    assert(x + (error_list_text(seq![e1]) + ", "@ + error_list_text(seq![e2])) =~= x
        + error_list_text(seq![e1]) + ", "@ + error_list_text(seq![e2]));
}

/// The spec view of an optional error list.
pub open spec fn errors_view(errors: Option<&Vec<CloudflareError>>) -> Option<Seq<CloudflareError>> {
    match errors {
        Some(v) => Some(v@),
        None => None,
    }
}

/// Describes a failed Cloudflare request from its status code and body;
/// `errors` is the `errors` array that the body holds, when it parses as a
/// Cloudflare error reply.
pub fn describe_cf_error(status: u16, errors: Option<&Vec<CloudflareError>>, body: &str) -> (s:
    String)
    ensures
        s@ == describe_text(status_text(status, status_reason(status)), errors_view(errors), body@),
{
    let mut s = String::from_str("status ");
    let line = status_line(status);
    s.append(line.as_str());
    s.append(": ");
    match errors {
        Some(es) => {
            if es.len() > 0 {
                let list = error_list(es);
                s.append(list.as_str());
            } else {
                s.append(trim_str(body));
            }
        },
        None => {
            s.append(trim_str(body));
        },
    }
    s
}

/// The message for a request to read the record that failed at the HTTP level.
pub fn get_record_failure(status: u16, errors: Option<&Vec<CloudflareError>>, body: &str) -> (s:
    String)
    ensures
        s@ == "Cloudflare API error for GET record: "@ + describe_text(
            status_text(status, status_reason(status)),
            errors_view(errors),
            body@,
        ),
{
    let mut s = String::from_str("Cloudflare API error for GET record: ");
    let d = describe_cf_error(status, errors, body);
    s.append(d.as_str());
    s
}

/// The message for a request to update the record that failed at the HTTP level.
pub fn update_record_failure(status: u16, errors: Option<&Vec<CloudflareError>>, body: &str) -> (s:
    String)
    ensures
        s@ == "Cloudflare API error for PATCH record: "@ + describe_text(
            status_text(status, status_reason(status)),
            errors_view(errors),
            body@,
        ),
{
    let mut s = String::from_str("Cloudflare API error for PATCH record: ");
    let d = describe_cf_error(status, errors, body);
    s.append(d.as_str());
    s
}

// ---------------------------------------------------------------------------
// Requests
// ---------------------------------------------------------------------------

/// The URL that lists the records of a zone with a given name.
pub open spec fn records_url_text(zone_id: Seq<char>, record_name: Seq<char>) -> Seq<char> {
    "https://api.cloudflare.com/client/v4/zones/"@ + zone_id + "/dns_records?name="@ + record_name
}

/// The URL of one record of a zone.
pub open spec fn record_url_text(zone_id: Seq<char>, record_id: Seq<char>) -> Seq<char> {
    "https://api.cloudflare.com/client/v4/zones/"@ + zone_id + "/dns_records/"@ + record_id
}

/// The URL that lists the records of a zone with a given name.
pub fn records_url(zone_id: &str, record_name: &str) -> (s: String)
    ensures
        s@ == records_url_text(zone_id@, record_name@),
{
    let mut s = String::from_str("https://api.cloudflare.com/client/v4/zones/");
    s.append(zone_id);
    s.append("/dns_records?name=");
    s.append(record_name);
    s
}

/// The URL of one record of a zone.
pub fn record_url(zone_id: &str, record_id: &str) -> (s: String)
    ensures
        s@ == record_url_text(zone_id@, record_id@),
{
    let mut s = String::from_str("https://api.cloudflare.com/client/v4/zones/");
    s.append(zone_id);
    s.append("/dns_records/");
    s.append(record_id);
    s
}

/// The body of the request that points the record at `ip` with the given
/// settings.
pub fn update_payload(record_name: &str, ip: Ipv4Address, ttl: u32, proxied: bool) -> (p:
    UpdateDnsRecordPayload)
    ensures
        p.record_type@ == "A"@,
        p.name@ == record_name@,
        p.content@ == format_ipv4(ip),
        p.ttl == ttl,
        p.proxied == proxied,
{
    UpdateDnsRecordPayload {
        record_type: String::from_str("A"),
        name: String::from_str(record_name),
        content: format_ipv4_string(ip),
        ttl,
        proxied,
    }
}

// ---------------------------------------------------------------------------
// Replies
// ---------------------------------------------------------------------------

/// Whether a record is an `A` record with the given name.
pub open spec fn is_a_record_named(r: DnsRecord, name: Seq<char>) -> bool {
    r.record_type@ == "A"@ && r.name@ == name
}

/// The records, in order, that are `A` records with the given name.
pub open spec fn matching_records(rs: Seq<DnsRecord>, name: Seq<char>) -> Seq<DnsRecord>
    decreases rs.len(),
{
    if rs.len() == 0 {
        Seq::empty()
    } else if is_a_record_named(rs.last(), name) {
        matching_records(rs.drop_last(), name).push(rs.last())
    } else {
        matching_records(rs.drop_last(), name)
    }
}

/// The message when more than one record matches.
pub open spec fn multiple_records_text(record_name: Seq<char>, zone_id: Seq<char>) -> Seq<char> {
    "Multiple A records found for name '"@ + record_name + "' in zone '"@ + zone_id
        + "'; expected exactly one"@
}

/// The message when no record matches.
pub open spec fn no_record_text(record_name: Seq<char>, zone_id: Seq<char>) -> Seq<char> {
    "No existing A record found for name '"@ + record_name + "' in zone '"@ + zone_id + "'"@
}

/// What a listing reply yields: the errors it reports when it is not a
/// success, else the one `A` record with the name, or an error when there is
/// none or more than one.
pub open spec fn lookup_outcome(
    resp: DnsRecordsResponse,
    zone_id: Seq<char>,
    record_name: Seq<char>,
) -> Result<DnsRecord, Seq<char>> {
    if !resp.success {
        Err("Cloudflare API errors: "@ + error_list_text(resp.errors@))
    } else {
        let m = matching_records(resp.result@, record_name);
        if m.len() == 1 {
            Ok(m[0])
        } else if m.len() > 1 {
            Err(multiple_records_text(record_name, zone_id))
        } else {
            Err(no_record_text(record_name, zone_id))
        }
    }
}

proof fn lemma_matching_step(rs: Seq<DnsRecord>, name: Seq<char>, k: int)
    requires
        0 <= k < rs.len(),
    ensures
        is_a_record_named(rs[k], name) ==> matching_records(rs.take(k + 1), name)
            == matching_records(rs.take(k), name).push(rs[k]),
        !is_a_record_named(rs[k], name) ==> matching_records(rs.take(k + 1), name)
            == matching_records(rs.take(k), name),
{
    let t = rs.take(k + 1);
    assert(t.drop_last() =~= rs.take(k));
    assert(t.last() == rs[k]);
}

proof fn lemma_matching_extend(rs: Seq<DnsRecord>, name: Seq<char>, k: int)
    requires
        0 <= k <= rs.len(),
    ensures
        matching_records(rs.take(k), name).len() <= matching_records(rs, name).len(),
        matching_records(rs.take(k), name).len() > 0 ==> matching_records(rs, name)[0]
            == matching_records(rs.take(k), name)[0],
    decreases rs.len() - k,
{
    if k < rs.len() {
        lemma_matching_step(rs, name, k);
        lemma_matching_extend(rs, name, k + 1);
    } else {
        assert(rs.take(k) =~= rs);
    }
}

proof fn lemma_matching_has_any(rs: Seq<DnsRecord>, name: Seq<char>, i: int)
    requires
        0 <= i < rs.len(),
        is_a_record_named(rs[i], name),
    ensures
        matching_records(rs, name).len() >= 1,
    decreases rs.len(),
{
    if i < rs.len() - 1 {
        assert(rs.drop_last()[i] == rs[i]);
        lemma_matching_has_any(rs.drop_last(), name, i);
    }
}

proof fn lemma_matching_has_two(rs: Seq<DnsRecord>, name: Seq<char>, i: int, j: int)
    requires
        0 <= i < j < rs.len(),
        is_a_record_named(rs[i], name),
        is_a_record_named(rs[j], name),
    ensures
        matching_records(rs, name).len() >= 2,
    decreases rs.len(),
{
    assert(rs.drop_last()[i] == rs[i]);
    if j < rs.len() - 1 {
        assert(rs.drop_last()[j] == rs[j]);
        lemma_matching_has_two(rs.drop_last(), name, i, j);
    } else {
        lemma_matching_has_any(rs.drop_last(), name, i);
    }
}

proof fn lemma_matching_first(rs: Seq<DnsRecord>, name: Seq<char>)
    requires
        matching_records(rs, name).len() >= 1,
    ensures
        exists|i: int|
            0 <= i < rs.len() && is_a_record_named(rs[i], name) && rs[i] == matching_records(
                rs,
                name,
            )[0],
    decreases rs.len(),
{
    let dl = rs.drop_last();
    if matching_records(dl, name).len() >= 1 {
        lemma_matching_first(dl, name);
        let i = choose|i: int|
            0 <= i < dl.len() && is_a_record_named(dl[i], name) && dl[i] == matching_records(
                dl,
                name,
            )[0];
        assert(rs[i] == dl[i]);
    } else {
        assert(rs[rs.len() - 1] == rs.last());
    }
}

proof fn lemma_matching_two_found(rs: Seq<DnsRecord>, name: Seq<char>)
    requires
        matching_records(rs, name).len() >= 2,
    ensures
        exists|i: int, j: int|
            0 <= i < j < rs.len() && is_a_record_named(rs[i], name) && is_a_record_named(
                rs[j],
                name,
            ),
    decreases rs.len(),
{
    let dl = rs.drop_last();
    if is_a_record_named(rs.last(), name) {
        lemma_matching_first(dl, name);
        let i = choose|i: int|
            0 <= i < dl.len() && is_a_record_named(dl[i], name) && dl[i] == matching_records(
                dl,
                name,
            )[0];
        assert(rs[i] == dl[i]);
        assert(rs[rs.len() - 1] == rs.last());
    } else {
        lemma_matching_two_found(dl, name);
        let (i, j) = choose|i: int, j: int|
            0 <= i < j < dl.len() && is_a_record_named(dl[i], name) && is_a_record_named(
                dl[j],
                name,
            );
        assert(rs[i] == dl[i] && rs[j] == dl[j]);
    }
}

/// A listing reply yields a record only when the reply is a success and
/// exactly one of its records is an `A` record with the requested name, and
/// then it yields that record; two or more such records are refused as
/// ambiguous, none as missing, and a reply that is not a success is an error.
pub proof fn lemma_lookup_needs_exactly_one(
    resp: DnsRecordsResponse,
    zone_id: Seq<char>,
    record_name: Seq<char>,
    k: int,
)
    ensures
        ({
            let rs = resp.result@;
            let out = lookup_outcome(resp, zone_id, record_name);
            &&& out matches Ok(rec) ==> resp.success && exists|i: int|
                0 <= i < rs.len() && rs[i] == rec && rec.record_type@ == "A"@ && rec.name@
                    == record_name && forall|j: int|
                    0 <= j < rs.len() && j != i ==> !(rs[j].record_type@ == "A"@ && rs[j].name@
                        == record_name)
            &&& !resp.success ==> out is Err
            &&& resp.success && (exists|i: int, j: int|
                0 <= i < j < rs.len() && rs[i].record_type@ == "A"@ && rs[i].name@ == record_name
                    && rs[j].record_type@ == "A"@ && rs[j].name@ == record_name) ==> out == Err::<
                DnsRecord,
                Seq<char>,
            >(multiple_records_text(record_name, zone_id))
            &&& resp.success && (forall|i: int|
                0 <= i < rs.len() ==> !(rs[i].record_type@ == "A"@ && rs[i].name@ == record_name))
                ==> out == Err::<DnsRecord, Seq<char>>(no_record_text(record_name, zone_id))
            &&& resp.success && 0 <= k < rs.len() && rs[k].record_type@ == "A"@ && rs[k].name@
                == record_name && (forall|j: int|
                0 <= j < rs.len() && j != k ==> !(rs[j].record_type@ == "A"@ && rs[j].name@
                    == record_name)) ==> out == Ok::<DnsRecord, Seq<char>>(rs[k])
        }),
{
    let rs = resp.result@;
    let m = matching_records(rs, record_name);
    if resp.success {
        if m.len() >= 1 {
            lemma_matching_first(rs, record_name);
        }
        if m.len() >= 2 {
            lemma_matching_two_found(rs, record_name);
        }
        if exists|i: int, j: int|
            0 <= i < j < rs.len() && is_a_record_named(rs[i], record_name) && is_a_record_named(
                rs[j],
                record_name,
            ) {
            let (i, j) = choose|i: int, j: int|
                0 <= i < j < rs.len() && is_a_record_named(rs[i], record_name) && is_a_record_named(
                    rs[j],
                    record_name,
                );
            lemma_matching_has_two(rs, record_name, i, j);
        }
        if exists|i: int| 0 <= i < rs.len() && is_a_record_named(rs[i], record_name) {
            let i = choose|i: int| 0 <= i < rs.len() && is_a_record_named(rs[i], record_name);
            lemma_matching_has_any(rs, record_name, i);
        }
        if m.len() == 1 {
            let i = choose|i: int|
                0 <= i < rs.len() && is_a_record_named(rs[i], record_name) && rs[i] == m[0];
            assert forall|j: int|
                0 <= j < rs.len() && j != i implies !(rs[j].record_type@ == "A"@ && rs[j].name@
                == record_name) by {
                if is_a_record_named(rs[j], record_name) {
                    if i < j {
                        lemma_matching_has_two(rs, record_name, i, j);
                    } else {
                        lemma_matching_has_two(rs, record_name, j, i);
                    }
                }
            }
        }
    }
}

/// Picks the record to update out of a listing reply: the one `A` record with
/// the name, failing when the reply is not a success or when no record or more
/// than one matches.
pub fn select_dns_record(resp: DnsRecordsResponse, zone_id: &str, record_name: &str) -> (r: Result<
    DnsRecord,
    String,
>)
    ensures
        match r {
            Ok(rec) => lookup_outcome(resp, zone_id@, record_name@) == Ok::<DnsRecord, Seq<char>>(
                rec,
            ),
            Err(m) => lookup_outcome(resp, zone_id@, record_name@) == Err::<DnsRecord, Seq<char>>(
                m@,
            ),
        },
{
    if !resp.success {
        let mut m = String::from_str("Cloudflare API errors: ");
        let list = error_list(&resp.errors);
        m.append(list.as_str());
        return Err(m);
    }
    let ghost rs = resp.result@;
    let ghost name = record_name@;
    let n = resp.result.len();
    let mut first: usize = 0;
    let mut count: usize = 0;
    let mut k: usize = 0;
    assert(rs.take(0) =~= Seq::<DnsRecord>::empty());
    while k < n && count < 2
        invariant
            k <= n,
            n == rs.len(),
            rs == resp.result@,
            name == record_name@,
            count <= 2,
            count == matching_records(rs.take(k as int), name).len(),
            count >= 1 ==> first < k && rs[first as int] == matching_records(
                rs.take(k as int),
                name,
            )[0],
        decreases n - k,
    {
        let rec = &resp.result[k];
        let is_match = str_equal(rec.record_type.as_str(), "A") && str_equal(
            rec.name.as_str(),
            record_name,
        );
        proof {
            lemma_matching_step(rs, name, k as int);
        }
        if is_match {
            if count == 0 {
                first = k;
            }
            count = count + 1;
        }
        k = k + 1;
    }
    proof {
        lemma_matching_extend(rs, name, k as int);
        if k == n {
            assert(rs.take(n as int) =~= rs);
        }
    }
    if count == 1 {
        let mut result = resp.result;
        let rec = result.remove(first);
        Ok(rec)
    } else if count > 1 {
        let mut m = String::from_str("Multiple A records found for name '");
        m.append(record_name);
        m.append("' in zone '");
        m.append(zone_id);
        m.append("'; expected exactly one");
        Err(m)
    } else {
        let mut m = String::from_str("No existing A record found for name '");
        m.append(record_name);
        m.append("' in zone '");
        m.append(zone_id);
        m.append("'");
        Err(m)
    }
}

/// What an update reply yields: the errors it reports when it is not a success.
pub open spec fn update_outcome(resp: UpdateResponse) -> Result<(), Seq<char>> {
    if resp.success {
        Ok(())
    } else {
        Err("Cloudflare API errors during update: "@ + error_list_text(resp.errors@))
    }
}

/// Checks the reply to an update request.
pub fn check_update_response(resp: &UpdateResponse) -> (r: Result<(), String>)
    ensures
        match r {
            Ok(()) => update_outcome(*resp) == Ok::<(), Seq<char>>(()),
            Err(m) => update_outcome(*resp) == Err::<(), Seq<char>>(m@),
        },
{
    if resp.success {
        Ok(())
    } else {
        let mut m = String::from_str("Cloudflare API errors during update: ");
        let list = error_list(&resp.errors);
        m.append(list.as_str());
        Err(m)
    }
}

} // verus!
