//! The decisions a shadowing proxy makes around each forwarded request: which
//! path and URL it requests, which headers it passes on, what it records of each
//! upstream reply, and what it answers the client.
use vstd::prelude::*;
use vstd::string::StringSliceAdditionalSpecFns;
use vstd::utf8::{decode_utf8, encode_utf8, encode_utf8_decode_utf8, is_char_boundary};
use crate::config::ProxyConfig;
use crate::text::{
    eq_ignore_ascii_case, equals_ignore_ascii_case, trim_end_char, trim_end_matching,
};

verus! {

broadcast use vstd::string::group_string_axioms;

/// What was received from the client, as it is logged.
#[derive(Debug, Clone)]
pub struct RequestInfo {
    pub method: String,
    pub path: String,
    pub headers: Vec<(String, String)>,
}

/// What one upstream server answered, as it is logged.
#[derive(Debug, Clone)]
pub struct ResponseInfo {
    pub server: String,
    pub status: u16,
    pub elapsed_ms: u64,
    pub success: bool,
    pub error: Option<String>,
    pub body_preview: String,
}

/// One proxied request with the answers of both groups of servers.
#[derive(Debug, Clone)]
pub struct ProxyResult {
    pub timestamp: String,
    pub request: RequestInfo,
    pub old_responses: Vec<ResponseInfo>,
    pub new_responses: Vec<ResponseInfo>,
}

/// How an exchange with one upstream server ended.
#[derive(Debug, Clone)]
pub enum UpstreamOutcome {
    /// The request could not be sent or got no answer.
    RequestFailed { error: String },
    /// The server answered with `status`, but its body could not be read as text.
    BodyUnreadable { status: u16, error: String },
    /// The server answered with `status`, the response headers `headers` (each
    /// value present where it could be read as text), and the body `text`.
    Completed { status: u16, headers: Vec<(String, Option<String>)>, text: String },
}

/// Bytes of a response body kept in the log.
pub const PREVIEW_LIMIT: usize = 1000;

/// The path requested upstream: the client's path, with `?` and the query
/// appended when the query is present and non-empty.
pub open spec fn full_path_of(path: Seq<char>, query: Option<Seq<char>>) -> Seq<char> {
    match query {
        Some(q) => if q.len() == 0 {
            path
        } else {
            path + seq!['?'] + q
        },
        None => path,
    }
}

/// The URL requested from `server`: the server with its trailing slashes
/// removed, followed by the path.
pub open spec fn target_url_of(server: Seq<char>, path: Seq<char>) -> Seq<char> {
    trim_end_matching(server, '/') + path
}

/// Whether a request header is passed on upstream: all are but `host`,
/// `content-length` and `transfer-encoding`, in any case.
pub open spec fn header_forwardable(name: Seq<char>) -> bool {
    &&& !eq_ignore_ascii_case(name, "host"@)
    &&& !eq_ignore_ascii_case(name, "content-length"@)
    &&& !eq_ignore_ascii_case(name, "transfer-encoding"@)
}

/// A header: its name, and its value where the caller could read it as text.
pub open spec fn header_view(h: (String, Option<String>)) -> (Seq<char>, Option<Seq<char>>) {
    (
        h.0@,
        match h.1 {
            Some(v) => Some(v@),
            None => None,
        },
    )
}

/// The views of a list of request headers.
pub open spec fn headers_view(hs: Seq<(String, Option<String>)>) -> Seq<(Seq<char>, Option<Seq<char>>)> {
    hs.map_values(|h: (String, Option<String>)| header_view(h))
}

/// The views of a list of header pairs.
pub open spec fn pairs_view(hs: Seq<(String, String)>) -> Seq<(Seq<char>, Seq<char>)> {
    hs.map_values(|h: (String, String)| (h.0@, h.1@))
}

/// The request headers passed on upstream, in their order: those that are
/// forwardable and whose value is text.
pub open spec fn forwarded_from(hs: Seq<(Seq<char>, Option<Seq<char>>)>) -> Seq<(Seq<char>, Seq<char>)>
    decreases hs.len(),
{
    if hs.len() == 0 {
        Seq::empty()
    } else {
        let rest = forwarded_from(hs.drop_last());
        let h = hs.last();
        if header_forwardable(h.0) && h.1 is Some {
            rest.push((h.0, h.1->0))
        } else {
            rest
        }
    }
}

/// The request headers as they are logged: every header, a value that is not
/// text logged as empty.
pub open spec fn logged_headers(hs: Seq<(Seq<char>, Option<Seq<char>>)>) -> Seq<(Seq<char>, Seq<char>)> {
    hs.map_values(
        |h: (Seq<char>, Option<Seq<char>>)|
            (
                h.0,
                match h.1 {
                    Some(v) => v,
                    None => Seq::empty(),
                },
            ),
    )
}

/// The largest character boundary of `bytes` at or below `k`.
pub open spec fn boundary_at_or_below(bytes: Seq<u8>, k: nat) -> nat
    decreases k,
{
    if k == 0 || is_char_boundary(bytes, k as int) {
        k
    } else {
        boundary_at_or_below(bytes, (k - 1) as nat)
    }
}

/// Where a long body is cut for the log: the last character boundary of its
/// UTF-8 encoding at or below `PREVIEW_LIMIT` bytes.
pub open spec fn preview_cut(body: Seq<char>) -> nat {
    boundary_at_or_below(encode_utf8(body), PREVIEW_LIMIT as nat)
}

/// The part of a body kept in the log: the whole body when its UTF-8 encoding
/// fits in `PREVIEW_LIMIT` bytes, else the characters that lie wholly within its
/// first `PREVIEW_LIMIT` bytes, followed by a truncation marker.
pub open spec fn preview_of(body: Seq<char>) -> Seq<char> {
    if encode_utf8(body).len() <= PREVIEW_LIMIT {
        body
    } else {
        decode_utf8(encode_utf8(body).subrange(0, preview_cut(body) as int)) + "... (truncated)"@
    }
}

/// The status sent to the client for an upstream status: the same status where
/// it is a valid HTTP status code (100 to 999), else 500.
pub open spec fn client_status_of(status: u16) -> u16 {
    if 100 <= status <= 999 {
        status
    } else {
        500
    }
}

/// Joins the client's path and query into the path requested upstream.
pub fn full_path(path: &str, query: Option<&str>) -> (r: String)
    ensures
        r@ == full_path_of(
            path@,
            match query {
                Some(q) => Some(q@),
                None => None,
            },
        ),
{
    match query {
        Some(q) => {
            if q.is_empty() {
                String::from_str(path)
            } else {
                proof {
                    reveal_strlit("?");
                    assert("?"@ =~= seq!['?']);
                }
                String::from_str(path).concat("?").concat(q)
            }
        },
        None => String::from_str(path),
    }
}

/// The URL requested from `server` for `path`.
pub fn target_url(server: &str, path: &str) -> (r: String)
    ensures
        r@ == target_url_of(server@, path@),
{
    trim_end_char(server, '/').concat(path)
}

/// Whether the request header `name` is passed on upstream.
pub fn is_forwardable_header(name: &str) -> (r: bool)
    ensures
        r == header_forwardable(name@),
{
    !equals_ignore_ascii_case(name, "host") && !equals_ignore_ascii_case(name, "content-length")
        && !equals_ignore_ascii_case(name, "transfer-encoding")
}

fn copy_pair(k: &String, v: &String) -> (r: (String, String))
    ensures
        r.0@ == k@,
        r.1@ == v@,
{
    (k.clone(), v.clone())
}

/// The headers sent upstream: the forwardable request headers whose value is
/// text, in their order, followed by the group's additional headers.
pub fn forwarded_headers(request: &Vec<(String, Option<String>)>, additional: &Vec<(String, String)>) -> (r: Vec<(String, String)>)
    ensures
        pairs_view(r@) == forwarded_from(headers_view(request@)) + pairs_view(additional@),
{
    let mut out: Vec<(String, String)> = Vec::new();
    let mut i: usize = 0;
    while i < request.len()
        invariant
            i <= request@.len(),
            pairs_view(out@) == forwarded_from(headers_view(request@.take(i as int))),
        decreases request.len() - i,
    {
        let ghost before = out@;
        let (name, value) = &request[i];
        assert(request@.take(i + 1).drop_last() =~= request@.take(i as int));
        assert(headers_view(request@.take(i + 1)).drop_last() =~= headers_view(request@.take(i as int)));
        assert(headers_view(request@.take(i + 1)).last() == header_view(request@[i as int]));
        if is_forwardable_header(name.as_str()) {
            match value {
                Some(v) => {
                    out.push(copy_pair(name, v));
                    assert(pairs_view(out@) =~= pairs_view(before).push((name@, v@)));
                },
                None => {},
            }
        }
        i = i + 1;
    }
    assert(request@.take(request@.len() as int) =~= request@);
    let ghost head = out@;
    let mut j: usize = 0;
    while j < additional.len()
        invariant
            j <= additional@.len(),
            pairs_view(out@) == pairs_view(head) + pairs_view(additional@.take(j as int)),
        decreases additional.len() - j,
    {
        let ghost before = out@;
        let (k, v) = &additional[j];
        out.push(copy_pair(k, v));
        assert(additional@.take(j + 1) =~= additional@.take(j as int).push(additional@[j as int]));
        assert(pairs_view(out@) =~= pairs_view(before).push((k@, v@)));
        assert(pairs_view(additional@.take(j + 1)) =~= pairs_view(additional@.take(j as int)).push(
            (k@, v@),
        ));
        assert(pairs_view(head) + pairs_view(additional@.take(j + 1)) =~= (pairs_view(head)
            + pairs_view(additional@.take(j as int))).push((k@, v@)));
        j = j + 1;
    }
    assert(additional@.take(additional@.len() as int) =~= additional@);
    out
}

/// The request as it is logged: method, full path, and every header, a value
/// that is not text logged as empty.
pub fn request_info(method: String, path: String, headers: &Vec<(String, Option<String>)>) -> (r: RequestInfo)
    ensures
        r.method@ == method@,
        r.path@ == path@,
        pairs_view(r.headers@) == logged_headers(headers_view(headers@)),
{
    let mut out: Vec<(String, String)> = Vec::new();
    let mut i: usize = 0;
    while i < headers.len()
        invariant
            i <= headers@.len(),
            pairs_view(out@) == logged_headers(headers_view(headers@.take(i as int))),
        decreases headers.len() - i,
    {
        let ghost before = out@;
        let (name, value) = &headers[i];
        let v = match value {
            Some(v) => v.clone(),
            None => String::new(),
        };
        out.push((name.clone(), v));
        assert(headers@.take(i + 1) =~= headers@.take(i as int).push(headers@[i as int]));
        assert(pairs_view(out@) =~= pairs_view(before).push((name@, v@)));
        assert(logged_headers(headers_view(headers@.take(i + 1))) =~= logged_headers(
            headers_view(headers@.take(i as int)),
        ).push((name@, v@)));
        i = i + 1;
    }
    assert(headers@.take(headers@.len() as int) =~= headers@);
    RequestInfo { method, path, headers: out }
}

/// The part of a response body kept in the log: the body itself when it has at
/// most `PREVIEW_LIMIT` bytes, else the characters within its first
/// `PREVIEW_LIMIT` bytes followed by `... (truncated)`.
pub fn body_preview(body: String) -> (r: String)
    ensures
        r@ == preview_of(body@),
{
    let text = body.as_str();
    let n = text.as_bytes().len();
    if n <= PREVIEW_LIMIT {
        body
    } else {
        let ghost bytes = encode_utf8(body@);
        proof {
            vstd::utf8::encode_utf8_valid_utf8(body@);
        }
        let mut cut: usize = PREVIEW_LIMIT;
        while cut > 0 && !text.is_char_boundary(cut)
            invariant
                cut <= PREVIEW_LIMIT < n,
                n == bytes.len(),
                text@ == body@,
                bytes == text.spec_bytes(),
                vstd::utf8::valid_utf8(bytes),
                boundary_at_or_below(bytes, PREVIEW_LIMIT as nat) == boundary_at_or_below(
                    bytes,
                    cut as nat,
                ),
            decreases cut,
        {
            cut = cut - 1;
        }
        assert(is_char_boundary(bytes, cut as int));
        assert(boundary_at_or_below(bytes, cut as nat) == cut);
        let (head, _) = text.split_at(cut);
        proof {
            encode_utf8_decode_utf8(head@);
            assert(head.spec_bytes() == encode_utf8(head@));
            assert(cut == preview_cut(body@));
            assert(decode_utf8(bytes.subrange(0, cut as int)) == head@);
        }
        String::from_str(head).concat("... (truncated)")
    }
}

/// The status sent to the client for an upstream status.
pub fn client_status(status: u16) -> (r: u16)
    ensures
        r == client_status_of(status),
{
    if 100 <= status && status <= 999 {
        status
    } else {
        500
    }
}

/// Whether `r` is the record of the exchange with `server` that took
/// `elapsed_ms` and ended with `outcome`.
pub open spec fn records_outcome(r: ResponseInfo, server: Seq<char>, elapsed_ms: u64, outcome: UpstreamOutcome) -> bool {
    &&& r.server@ == server
    &&& r.elapsed_ms == elapsed_ms
    &&& match outcome {
        UpstreamOutcome::RequestFailed { error } => {
            &&& r.status == 0
            &&& !r.success
            &&& r.error matches Some(e) && e@ == error@
            &&& r.body_preview@.len() == 0
        },
        UpstreamOutcome::BodyUnreadable { status, error } => {
            &&& r.status == status
            &&& !r.success
            &&& r.error matches Some(e) && e@ == "Failed to read response body: "@ + error@
            &&& r.body_preview@.len() == 0
        },
        UpstreamOutcome::Completed { status, text, .. } => {
            &&& r.status == status
            &&& r.success
            &&& r.error is None
            &&& r.body_preview@ == preview_of(text@)
        },
    }
}

/// Whether the statuses an outcome carries are real HTTP statuses (100 to 999),
/// as every status received from a server is.
pub open spec fn outcome_has_http_status(outcome: UpstreamOutcome) -> bool {
    match outcome {
        UpstreamOutcome::RequestFailed { .. } => true,
        UpstreamOutcome::BodyUnreadable { status, .. } => 100 <= status <= 999,
        UpstreamOutcome::Completed { status, .. } => 100 <= status <= 999,
    }
}

/// The shape of every record of an exchange: it succeeded exactly when it
/// records no error; a record that did not succeed has an empty preview; the
/// preview never exceeds `PREVIEW_LIMIT` bytes plus the truncation marker; and,
/// for statuses received from a server, status 0 marks exactly the requests
/// that could not be sent or got no answer.
pub proof fn law_record_shape(r: ResponseInfo, server: Seq<char>, elapsed_ms: u64, outcome: UpstreamOutcome)
    requires
        records_outcome(r, server, elapsed_ms, outcome),
    ensures
        r.server@ == server,
        r.success <==> r.error is None,
        !r.success ==> r.body_preview@.len() == 0,
        encode_utf8(r.body_preview@).len() <= PREVIEW_LIMIT + 15,
        outcome_has_http_status(outcome) ==> (r.status == 0 <==> outcome is RequestFailed),
{
    match outcome {
        UpstreamOutcome::Completed { text, .. } => {
            law_preview_bounded(text@);
        },
        _ => {
            assert(r.body_preview@ =~= Seq::<char>::empty());
            assert(encode_utf8(Seq::<char>::empty()).len() == 0);
        },
    }
}

impl ResponseInfo {
    /// What is logged of the exchange with `server` that took `elapsed_ms`: a
    /// completed exchange is a success with the body's preview; an unreadable
    /// body keeps the status and records the read error; a failed request has
    /// status 0 and records the request error.
    pub fn from_outcome(server: &str, elapsed_ms: u64, outcome: &UpstreamOutcome) -> (r: ResponseInfo)
        ensures
            records_outcome(r, server@, elapsed_ms, *outcome),
    {
        let server = String::from_str(server);
        match outcome {
            UpstreamOutcome::RequestFailed { error } => ResponseInfo {
                server,
                status: 0,
                elapsed_ms,
                success: false,
                error: Some(error.clone()),
                body_preview: String::new(),
            },
            UpstreamOutcome::BodyUnreadable { status, error } => ResponseInfo {
                server,
                status: *status,
                elapsed_ms,
                success: false,
                error: Some(String::from_str("Failed to read response body: ").concat(error.as_str())),
                body_preview: String::new(),
            },
            UpstreamOutcome::Completed { status, text, .. } => ResponseInfo {
                server,
                status: *status,
                elapsed_ms,
                success: true,
                error: None,
                body_preview: body_preview(text.clone()),
            },
        }
    }
}

/// Which group of servers an upstream request goes to.
#[derive(Debug, Clone, Copy, PartialEq, Eq)]
pub enum ServerGroup {
    Old,
    New,
}

/// One request to send upstream.
#[derive(Debug, Clone)]
pub struct UpstreamRequest {
    pub group: ServerGroup,
    /// The client's HTTP method, sent unchanged.
    pub method: String,
    pub server: String,
    pub url: String,
    pub headers: Vec<(String, String)>,
    pub timeout_secs: u64,
    /// Whether the client's body is sent along: only when it is non-empty.
    pub send_body: bool,
}

/// Whether `u` is the request for `server` of `group`: the client's method, the
/// URL for `path`, the forwarded request headers followed by the group's
/// additional headers, the group's timeout, and the body exactly when it is
/// non-empty.
pub open spec fn is_upstream_request(
    u: UpstreamRequest,
    group: ServerGroup,
    method: Seq<char>,
    server: Seq<char>,
    path: Seq<char>,
    headers: Seq<(Seq<char>, Option<Seq<char>>)>,
    additional: Seq<(Seq<char>, Seq<char>)>,
    timeout_secs: u64,
    body_len: usize,
) -> bool {
    &&& u.send_body == (body_len > 0)
    &&& u.method@ == method
    &&& u.group == group
    &&& u.server@ == server
    &&& u.url@ == target_url_of(server, path)
    &&& pairs_view(u.headers@) == forwarded_from(headers) + additional
    &&& u.timeout_secs == timeout_secs
}

fn copy_pairs(v: &Vec<(String, String)>) -> (r: Vec<(String, String)>)
    ensures
        pairs_view(r@) == pairs_view(v@),
{
    let mut out: Vec<(String, String)> = Vec::new();
    let mut i: usize = 0;
    while i < v.len()
        invariant
            i <= v@.len(),
            pairs_view(out@) == pairs_view(v@.take(i as int)),
        decreases v.len() - i,
    {
        let ghost before = out@;
        let (a, b) = &v[i];
        out.push(copy_pair(a, b));
        assert(v@.take(i + 1) =~= v@.take(i as int).push(v@[i as int]));
        assert(pairs_view(out@) =~= pairs_view(before).push((a@, b@)));
        assert(pairs_view(v@.take(i + 1)) =~= pairs_view(v@.take(i as int)).push((a@, b@)));
        i = i + 1;
    }
    assert(v@.take(v@.len() as int) =~= v@);
    out
}

fn plan_group(
    out: &mut Vec<UpstreamRequest>,
    group: ServerGroup,
    method: &str,
    servers: &Vec<String>,
    path: &str,
    sent_headers: &Vec<(String, String)>,
    timeout_secs: u64,
    send_body: bool,
)
    ensures
        final(out)@.len() == old(out)@.len() + servers@.len(),
        forall|i: int| 0 <= i < old(out)@.len() ==> #[trigger] final(out)@[i] == old(out)@[i],
        forall|i: int|
            0 <= i < servers@.len() ==> {
                let u = #[trigger] final(out)@[old(out)@.len() + i];
                &&& u.group == group
                &&& u.method@ == method@
                &&& u.server@ == servers@[i]@
                &&& u.url@ == target_url_of(servers@[i]@, path@)
                &&& pairs_view(u.headers@) == pairs_view(sent_headers@)
                &&& u.timeout_secs == timeout_secs
                &&& u.send_body == send_body
            },
{
    let ghost start = out@;
    let mut k: usize = 0;
    while k < servers.len()
        invariant
            k <= servers@.len(),
            out@.len() == start.len() + k,
            forall|i: int| 0 <= i < start.len() ==> #[trigger] out@[i] == start[i],
            forall|i: int|
                0 <= i < k ==> {
                    let u = #[trigger] out@[start.len() + i];
                    &&& u.group == group
                    &&& u.method@ == method@
                    &&& u.server@ == servers@[i]@
                    &&& u.url@ == target_url_of(servers@[i]@, path@)
                    &&& pairs_view(u.headers@) == pairs_view(sent_headers@)
                    &&& u.timeout_secs == timeout_secs
                    &&& u.send_body == send_body
                },
        decreases servers.len() - k,
    {
        let server = &servers[k];
        let request = UpstreamRequest {
            group,
            method: String::from_str(method),
            server: server.clone(),
            url: target_url(server.as_str(), path),
            headers: copy_pairs(sent_headers),
            timeout_secs,
            send_body,
        };
        out.push(request);
        k = k + 1;
    }
}

/// The requests to send upstream for one client request with `method`, whose
/// body has `body_len` bytes: one to each old server, in order, then one to
/// each new server, in order.
pub fn plan_upstream_requests(
    config: &ProxyConfig,
    method: &str,
    path: &str,
    headers: &Vec<(String, Option<String>)>,
    body_len: usize,
) -> (r: Vec<UpstreamRequest>)
    ensures
        r@.len() == config.old_servers@.len() + config.new_servers@.len(),
        forall|i: int|
            0 <= i < config.old_servers@.len() ==> is_upstream_request(
                #[trigger] r@[i],
                ServerGroup::Old,
                method@,
                config.old_servers@[i]@,
                path@,
                headers_view(headers@),
                pairs_view(config.old_servers_additional_headers@),
                config.old_servers_timeout_secs,
                body_len,
            ),
        forall|i: int|
            0 <= i < config.new_servers@.len() ==> is_upstream_request(
                #[trigger] r@[config.old_servers@.len() + i],
                ServerGroup::New,
                method@,
                config.new_servers@[i]@,
                path@,
                headers_view(headers@),
                pairs_view(config.new_servers_additional_headers@),
                config.new_servers_timeout_secs,
                body_len,
            ),
{
    let old_headers = forwarded_headers(headers, &config.old_servers_additional_headers);
    let new_headers = forwarded_headers(headers, &config.new_servers_additional_headers);
    let send_body = body_len > 0;
    let mut out: Vec<UpstreamRequest> = Vec::new();
    plan_group(
        &mut out,
        ServerGroup::Old,
        method,
        &config.old_servers,
        path,
        &old_headers,
        config.old_servers_timeout_secs,
        send_body,
    );
    let ghost after_old = out@;
    plan_group(
        &mut out,
        ServerGroup::New,
        method,
        &config.new_servers,
        path,
        &new_headers,
        config.new_servers_timeout_secs,
        send_body,
    );
    assert forall|i: int| 0 <= i < config.old_servers@.len() implies is_upstream_request(
        #[trigger] out@[i],
        ServerGroup::Old,
        method@,
        config.old_servers@[i]@,
        path@,
        headers_view(headers@),
        pairs_view(config.old_servers_additional_headers@),
        config.old_servers_timeout_secs,
        body_len,
    ) by {
        assert(out@[i] == after_old[0 + i]);
    }
    out
}

proof fn lemma_encode_concat(a: Seq<char>, b: Seq<char>)
    ensures
        encode_utf8(a + b) == encode_utf8(a) + encode_utf8(b),
    decreases a.len(),
{
    if a.len() == 0 {
        assert(a + b =~= b);
        assert(encode_utf8(a) =~= Seq::<u8>::empty());
        assert(encode_utf8(a) + encode_utf8(b) =~= encode_utf8(b));
    } else {
        lemma_encode_concat(a.drop_first(), b);
        assert((a + b).drop_first() =~= a.drop_first() + b);
        assert((a + b)[0] == a[0]);
    }
}

proof fn lemma_boundary_at_or_below(bytes: Seq<u8>, k: nat)
    requires
        vstd::utf8::valid_utf8(bytes),
        k <= bytes.len(),
    ensures
        boundary_at_or_below(bytes, k) <= k,
        is_char_boundary(bytes, boundary_at_or_below(bytes, k) as int),
    decreases k,
{
    if k == 0 || is_char_boundary(bytes, k as int) {
    } else {
        lemma_boundary_at_or_below(bytes, (k - 1) as nat);
    }
}

/// The logged preview of a body never exceeds `PREVIEW_LIMIT` bytes plus the
/// truncation marker; a body within the limit is logged whole, and a longer one
/// is logged as a prefix of its characters followed by the marker.
pub proof fn law_preview_bounded(body: Seq<char>)
    ensures
        encode_utf8(preview_of(body)).len() <= PREVIEW_LIMIT + 15,
        encode_utf8(body).len() <= PREVIEW_LIMIT ==> preview_of(body) == body,
        encode_utf8(body).len() > PREVIEW_LIMIT ==> exists|k: int|
            0 <= k <= body.len() && #[trigger] body.take(k) + "... (truncated)"@ == preview_of(body),
{
    let bytes = encode_utf8(body);
    if bytes.len() > PREVIEW_LIMIT {
        vstd::utf8::encode_utf8_valid_utf8(body);
        lemma_boundary_at_or_below(bytes, PREVIEW_LIMIT as nat);
        let cut = preview_cut(body) as int;
        vstd::utf8::valid_utf8_split(bytes, cut);
        let head = bytes.subrange(0, cut);
        vstd::utf8::decode_utf8_encode_utf8(head);
        reveal_strlit("... (truncated)");
        let marker = "... (truncated)"@;
        assert(vstd::utf8::is_ascii_chars(marker));
        vstd::utf8::is_ascii_chars_encode_utf8(marker);
        lemma_encode_concat(decode_utf8(head), marker);
        let k = lemma_prefix_chars(body, cut);
        vstd::utf8::encode_utf8_decode_utf8(body.take(k));
        assert(body.take(k) + marker == preview_of(body));
    }
}

/// A character boundary of an encoding ends the encoding of a prefix of the characters.
proof fn lemma_prefix_chars(body: Seq<char>, cut: int) -> (k: int)
    requires
        0 <= cut <= encode_utf8(body).len(),
        is_char_boundary(encode_utf8(body), cut),
    ensures
        0 <= k <= body.len(),
        encode_utf8(body.take(k)) == encode_utf8(body).subrange(0, cut),
    decreases body.len(),
{
    let bytes = encode_utf8(body);
    vstd::utf8::encode_utf8_valid_utf8(body);
    if cut == 0 {
        assert(body.take(0) =~= Seq::<char>::empty());
        assert(encode_utf8(Seq::<char>::empty()) =~= bytes.subrange(0, 0));
        0
    } else {
        let c = body[0];
        let rest = body.drop_first();
        vstd::utf8::encode_utf8_first_scalar(body);
        let len = vstd::utf8::length_of_first_scalar(bytes);
        assert(bytes == vstd::utf8::encode_scalar(c as u32) + encode_utf8(rest));
        assert(vstd::utf8::pop_first_scalar(bytes) =~= encode_utf8(rest));
        assert(is_char_boundary(encode_utf8(rest), cut - len));
        let k1 = lemma_prefix_chars(rest, cut - len);
        let k = k1 + 1;
        assert(body.take(k)[0] == c);
        assert(body.take(k).drop_first() =~= rest.take(k1));
        assert(encode_utf8(body.take(k)) == vstd::utf8::encode_scalar(c as u32) + encode_utf8(
            rest.take(k1),
        ));
        assert(encode_utf8(body.take(k)) =~= bytes.subrange(0, cut));
        k
    }
}

/// Whether the pair `p` is one of the request headers `hs`, with a text value.
pub open spec fn is_request_header(hs: Seq<(Seq<char>, Option<Seq<char>>)>, p: (Seq<char>, Seq<char>)) -> bool {
    exists|j: int| 0 <= j < hs.len() && #[trigger] hs[j] == (p.0, Some(p.1))
}

/// No request header named `host`, `content-length` or `transfer-encoding`
/// (in any case) is among the request headers passed on upstream, and every
/// header passed on is a request header with the same name and value.
pub proof fn law_blocked_headers_not_forwarded(hs: Seq<(Seq<char>, Option<Seq<char>>)>)
    ensures
        forall|i: int|
            0 <= i < forwarded_from(hs).len() ==> header_forwardable(#[trigger] forwarded_from(hs)[i].0),
        forall|i: int|
            0 <= i < forwarded_from(hs).len() ==> is_request_header(hs, #[trigger] forwarded_from(hs)[i]),
    decreases hs.len(),
{
    if hs.len() > 0 {
        let init = hs.drop_last();
        law_blocked_headers_not_forwarded(init);
        let rest = forwarded_from(init);
        let h = hs.last();
        assert forall|i: int| 0 <= i < forwarded_from(hs).len() implies is_request_header(
            hs,
            #[trigger] forwarded_from(hs)[i],
        ) by {
            if i < rest.len() {
                assert(forwarded_from(hs)[i] == rest[i]);
                assert(is_request_header(init, rest[i]));
                let j = choose|j: int| 0 <= j < init.len() && #[trigger] init[j] == (rest[i].0, Some(rest[i].1));
                assert(hs[j] == init[j]);
            } else {
                assert(hs[hs.len() - 1] == h);
                assert(forwarded_from(hs)[i] == (h.0, h.1->0));
                assert(hs[hs.len() - 1] == (forwarded_from(hs)[i].0, Some(forwarded_from(hs)[i].1)));
            }
        }
        assert forall|i: int| 0 <= i < forwarded_from(hs).len() implies header_forwardable(
            #[trigger] forwarded_from(hs)[i].0,
        ) by {
            if i < rest.len() {
                assert(forwarded_from(hs)[i] == rest[i]);
            }
        }
    }
}

/// A trailing slash on a server address does not change the URL requested from it.
pub proof fn law_trailing_slash_ignored(server: Seq<char>, path: Seq<char>)
    ensures
        target_url_of(server.push('/'), path) == target_url_of(server, path),
{
    assert(server.push('/').drop_last() =~= server);
}

/// Every request header with a text value is passed on upstream unless its name
/// is `host`, `content-length` or `transfer-encoding` (ignoring ASCII case):
/// any other header, `authorization` or a custom one alike, is forwarded, and
/// two such headers keep their request order.
pub proof fn law_other_headers_forwarded(hs: Seq<(Seq<char>, Option<Seq<char>>)>)
    ensures
        forall|i: int|
            0 <= i < hs.len() && (#[trigger] hs[i]).1 is Some
                && !eq_ignore_ascii_case(hs[i].0, "host"@)
                && !eq_ignore_ascii_case(hs[i].0, "content-length"@)
                && !eq_ignore_ascii_case(hs[i].0, "transfer-encoding"@) ==> exists|k: int|
                0 <= k < forwarded_from(hs).len() && #[trigger] forwarded_from(hs)[k] == (
                    hs[i].0,
                    hs[i].1->0,
                ) && forwarded_from(hs.take(i)).len() == k,
    decreases hs.len(),
{
    if hs.len() > 0 {
        let init = hs.drop_last();
        law_other_headers_forwarded(init);
        let n = hs.len() - 1;
        assert forall|i: int|
            0 <= i < hs.len() && (#[trigger] hs[i]).1 is Some
                && !eq_ignore_ascii_case(hs[i].0, "host"@)
                && !eq_ignore_ascii_case(hs[i].0, "content-length"@)
                && !eq_ignore_ascii_case(hs[i].0, "transfer-encoding"@) implies exists|k: int|
                0 <= k < forwarded_from(hs).len() && #[trigger] forwarded_from(hs)[k] == (
                    hs[i].0,
                    hs[i].1->0,
                ) && forwarded_from(hs.take(i)).len() == k by {
            if i < n {
                assert(hs[i] == init[i]);
                assert(hs.take(i) =~= init.take(i));
                let k = choose|k: int|
                    0 <= k < forwarded_from(init).len() && #[trigger] forwarded_from(init)[k] == (
                        init[i].0,
                        init[i].1->0,
                    ) && forwarded_from(init.take(i)).len() == k;
                assert(forwarded_from(hs)[k] == forwarded_from(init)[k]);
            } else {
                assert(hs.take(i) =~= init);
                let k = forwarded_from(init).len() as int;
                assert(forwarded_from(hs)[k] == (hs[i].0, hs[i].1->0));
            }
        }
    }
}

/// The encoding of the first `k` characters of a body ends on a character
/// boundary of the body's encoding.
proof fn lemma_prefix_boundary(body: Seq<char>, k: int)
    requires
        0 <= k <= body.len(),
    ensures
        is_char_boundary(encode_utf8(body), encode_utf8(body.take(k)).len() as int),
    decreases body.len(),
{
    let bytes = encode_utf8(body);
    vstd::utf8::encode_utf8_valid_utf8(body);
    if k == 0 {
        assert(body.take(0) =~= Seq::<char>::empty());
        assert(encode_utf8(body.take(0)).len() == 0);
    } else {
        let rest = body.drop_first();
        vstd::utf8::encode_utf8_first_scalar(body);
        assert(vstd::utf8::pop_first_scalar(bytes) =~= encode_utf8(rest));
        lemma_prefix_boundary(rest, k - 1);
        assert(body.take(k)[0] == body[0]);
        assert(body.take(k).drop_first() =~= rest.take(k - 1));
        let idx = encode_utf8(body.take(k)).len() as int;
        let len = vstd::utf8::length_of_first_scalar(bytes);
        assert(idx == len + encode_utf8(rest.take(k - 1)).len());
        assert(encode_utf8(rest.take(k - 1)).len() <= encode_utf8(rest).len());
        assert(idx > 0);
        assert(is_char_boundary(bytes, idx) == is_char_boundary(
            vstd::utf8::pop_first_scalar(bytes),
            idx - len,
        ));
    }
}

/// No character boundary lies above `boundary_at_or_below(bytes, m)` and at or below `m`.
proof fn lemma_boundary_is_largest(bytes: Seq<u8>, m: nat, j: int)
    requires
        boundary_at_or_below(bytes, m) < j <= m,
    ensures
        !is_char_boundary(bytes, j),
    decreases m,
{
    if m == 0 || is_char_boundary(bytes, m as int) {
    } else if j < m {
        lemma_boundary_is_largest(bytes, (m - 1) as nat, j);
    }
}

/// A body too long for the log is cut after the longest prefix of its
/// characters whose encoding fits in `PREVIEW_LIMIT` bytes.
proof fn lemma_preview_longest_prefix(body: Seq<char>) -> (k: int)
    requires
        encode_utf8(body).len() > PREVIEW_LIMIT,
    ensures
        0 <= k < body.len(),
        encode_utf8(body.take(k)).len() <= PREVIEW_LIMIT,
        encode_utf8(body.take(k + 1)).len() > PREVIEW_LIMIT,
        preview_of(body) == body.take(k) + "... (truncated)"@,
{
    let bytes = encode_utf8(body);
    vstd::utf8::encode_utf8_valid_utf8(body);
    lemma_boundary_at_or_below(bytes, PREVIEW_LIMIT as nat);
    let cut = preview_cut(body) as int;
    let k = lemma_prefix_chars(body, cut);
    vstd::utf8::encode_utf8_decode_utf8(body.take(k));
    assert(encode_utf8(body.take(k)).len() == cut);
    if k == body.len() {
        assert(body.take(k) =~= body);
    }
    let next = body.take(k + 1);
    assert(next =~= body.take(k) + seq![body[k]]);
    lemma_encode_concat(body.take(k), seq![body[k]]);
    let one = seq![body[k]];
    assert(one[0] == body[k]);
    assert(one.drop_first() =~= Seq::<char>::empty());
    assert(encode_utf8(one).len() >= vstd::utf8::encode_scalar(body[k] as u32).len());
    assert(vstd::utf8::encode_scalar(body[k] as u32).len() >= 1);
    lemma_prefix_boundary(body, k + 1);
    if encode_utf8(next).len() <= PREVIEW_LIMIT {
        lemma_boundary_is_largest(bytes, PREVIEW_LIMIT as nat, encode_utf8(next).len() as int);
    }
    k
}

/// The record of a completed exchange, whatever its status (a 404 or a 503 as
/// much as a 200), is a success with no error that keeps the body for the log:
/// the whole body when its UTF-8 encoding fits in `PREVIEW_LIMIT` bytes, else
/// the longest prefix of its characters that fits, followed by the truncation
/// marker. A non-empty body never gives an empty preview.
pub proof fn law_completed_record_keeps_body(
    r: ResponseInfo,
    server: Seq<char>,
    elapsed_ms: u64,
    status: u16,
    headers: Vec<(String, Option<String>)>,
    text: String,
)
    requires
        records_outcome(r, server, elapsed_ms, UpstreamOutcome::Completed { status, headers, text }),
    ensures
        r.server@ == server,
        r.elapsed_ms == elapsed_ms,
        r.status == status,
        r.success,
        r.error is None,
        encode_utf8(text@).len() <= 1000 ==> r.body_preview@ == text@,
        encode_utf8(text@).len() > 1000 ==> exists|k: int|
            0 <= k < text@.len() && encode_utf8(text@.take(k)).len() <= 1000 && encode_utf8(
                text@.take(k + 1),
            ).len() > 1000 && #[trigger] text@.take(k) + "... (truncated)"@ == r.body_preview@,
        text@.len() > 0 ==> r.body_preview@.len() > 0,
{
    reveal_strlit("... (truncated)");
    if encode_utf8(text@).len() > 1000 {
        let k = lemma_preview_longest_prefix(text@);
        assert(text@.take(k) + "... (truncated)"@ == r.body_preview@);
    }
}

/// The record of an exchange that did not complete is a failure with an empty
/// preview that keeps the error: a request that could not be sent has status 0
/// and its error as is; a body that could not be read keeps the server's status
/// and gives the read error after `Failed to read response body: `.
pub proof fn law_failed_record_keeps_error(
    r: ResponseInfo,
    server: Seq<char>,
    elapsed_ms: u64,
    outcome: UpstreamOutcome,
)
    requires
        records_outcome(r, server, elapsed_ms, outcome),
        !(outcome is Completed),
    ensures
        r.server@ == server,
        r.elapsed_ms == elapsed_ms,
        !r.success,
        r.body_preview@.len() == 0,
        outcome is RequestFailed ==> r.status == 0 && r.error is Some
            && r.error->0@ == outcome->RequestFailed_error@,
        outcome is BodyUnreadable ==> r.status == outcome->BodyUnreadable_status
            && r.error is Some && r.error->0@ == "Failed to read response body: "@
            + outcome->BodyUnreadable_error@,
{
}

/// The URL requested from a server is the server followed by the path: as
/// written when it does not end in `/`, and any trailing slashes dropped.
pub proof fn law_target_url_joins(server: Seq<char>, path: Seq<char>)
    ensures
        server.len() == 0 || server.last() != '/' ==> target_url_of(server, path) == server + path,
        target_url_of(server + seq!['/'], path) == target_url_of(server, path),
        target_url_of(server, path).len() >= path.len(),
        target_url_of(server, path).subrange(
            target_url_of(server, path).len() - path.len(),
            target_url_of(server, path).len() as int,
        ) == path,
{
    assert((server + seq!['/']).drop_last() =~= server);
    let t = trim_end_matching(server, '/');
    assert((t + path).subrange(t.len() as int, (t + path).len() as int) =~= path);
}

/// The path requested upstream is the client's path, followed by `?` and the
/// query only when the query is present and non-empty.
pub proof fn law_full_path_joins(path: Seq<char>, query: Option<Seq<char>>)
    ensures
        query is Some && query->0.len() > 0 ==> full_path_of(path, query) == path + seq!['?']
            + query->0,
        !(query is Some && query->0.len() > 0) ==> full_path_of(path, query) == path,
{
}

/// A planned upstream request carries the client's method, goes to the server's
/// URL for the path with the forwarded request headers followed by the group's
/// additional headers and the group's timeout, and sends the body exactly when
/// the body is non-empty.
pub proof fn law_planned_request_fields(
    u: UpstreamRequest,
    group: ServerGroup,
    method: Seq<char>,
    server: Seq<char>,
    path: Seq<char>,
    headers: Seq<(Seq<char>, Option<Seq<char>>)>,
    additional: Seq<(Seq<char>, Seq<char>)>,
    timeout_secs: u64,
    body_len: usize,
)
    requires
        is_upstream_request(u, group, method, server, path, headers, additional, timeout_secs, body_len),
    ensures
        u.group == group,
        u.method@ == method,
        u.server@ == server,
        u.url@ == target_url_of(server, path),
        pairs_view(u.headers@) == forwarded_from(headers) + additional,
        u.timeout_secs == timeout_secs,
        u.send_body <==> body_len != 0,
{
}

} // verus!
