//! Completing a proxied request once its upstream exchanges are over: the
//! record to log, and the answer to the client, which relays the first old
//! server's response.
use vstd::prelude::*;
use crate::proxy::{
    client_status, client_status_of, headers_view, pairs_view, records_outcome, ProxyResult,
    RequestInfo, ResponseInfo, ServerGroup, UpstreamOutcome, UpstreamRequest,
};
use crate::text::{eq_ignore_ascii_case, equals_ignore_ascii_case};

verus! {

broadcast use vstd::string::group_string_axioms;

/// How one planned upstream request went, and how long it took.
#[derive(Debug, Clone)]
pub struct Exchange {
    pub elapsed_ms: u64,
    pub outcome: UpstreamOutcome,
}

/// The answer given to the client.
#[derive(Debug, Clone)]
pub struct ClientReply {
    pub status: u16,
    pub headers: Vec<(String, String)>,
    pub body: String,
    /// Whether the answer relays the first old server's response.
    pub relayed: bool,
}

/// Whether a response header of the old server is relayed to the client: all
/// are but the framing headers `content-length`, `transfer-encoding` and
/// `connection`, in any case, which belong to the connection they came on.
pub open spec fn response_header_relayed(name: Seq<char>) -> bool {
    &&& !eq_ignore_ascii_case(name, "content-length"@)
    &&& !eq_ignore_ascii_case(name, "transfer-encoding"@)
    &&& !eq_ignore_ascii_case(name, "connection"@)
}

/// The response headers relayed to the client, in their order: those that are
/// relayed and whose value is text.
pub open spec fn relayed_headers_from(hs: Seq<(Seq<char>, Option<Seq<char>>)>) -> Seq<(Seq<char>, Seq<char>)>
    decreases hs.len(),
{
    if hs.len() == 0 {
        Seq::empty()
    } else {
        let rest = relayed_headers_from(hs.drop_last());
        let h = hs.last();
        if response_header_relayed(h.0) && h.1 is Some {
            rest.push((h.0, h.1->0))
        } else {
            rest
        }
    }
}

/// The exchange with the first configured old server: that of the first
/// planned request when it goes to an old server, absent when its task did not
/// finish or there is no old server.
pub open spec fn first_old_exchange(plan: Seq<UpstreamRequest>, exchanges: Seq<Option<Exchange>>) -> Option<Exchange> {
    if plan.len() > 0 && plan[0].group == ServerGroup::Old && exchanges.len() > 0 {
        exchanges[0]
    } else {
        None
    }
}

/// The answer when the first old server gave no response to relay.
pub open spec fn is_bad_gateway(r: ClientReply) -> bool {
    &&& r.status == 502
    &&& r.headers@.len() == 0
    &&& r.body@ == "Upstream old server error"@
    &&& !r.relayed
}

/// Whether `r` answers the client given the first old server's exchange: a
/// completed exchange is relayed (its status where valid, else 500, its
/// relayed headers, and its whole body); anything else is a `502`.
pub open spec fn answers(r: ClientReply, first_old: Option<Exchange>) -> bool {
    match first_old {
        Some(e) => match e.outcome {
            UpstreamOutcome::Completed { status, headers, text } => {
                &&& r.relayed
                &&& r.status == client_status_of(status)
                &&& pairs_view(r.headers@) == relayed_headers_from(headers_view(headers@))
                &&& r.body@ == text@
            },
            _ => is_bad_gateway(r),
        },
        None => is_bad_gateway(r),
    }
}

/// The positions, among the first `n` planned requests, of those to `group`
/// whose exchange finished, in order.
pub open spec fn recorded_upto(
    plan: Seq<UpstreamRequest>,
    exchanges: Seq<Option<Exchange>>,
    group: ServerGroup,
    n: nat,
) -> Seq<int>
    decreases n,
{
    if n == 0 {
        Seq::empty()
    } else {
        let prev = recorded_upto(plan, exchanges, group, (n - 1) as nat);
        let i = n - 1;
        if i < plan.len() && plan[i].group == group && i < exchanges.len() && exchanges[i] is Some {
            prev.push(i)
        } else {
            prev
        }
    }
}

/// The positions of the planned requests to `group` whose exchange finished, in order.
pub open spec fn recorded_indices(
    plan: Seq<UpstreamRequest>,
    exchanges: Seq<Option<Exchange>>,
    group: ServerGroup,
) -> Seq<int> {
    recorded_upto(plan, exchanges, group, plan.len())
}

/// Whether `rs` records, in plan order, every finished exchange of `group`,
/// each under the server it was planned for.
pub open spec fn records_group(
    rs: Seq<ResponseInfo>,
    plan: Seq<UpstreamRequest>,
    exchanges: Seq<Option<Exchange>>,
    group: ServerGroup,
) -> bool {
    let idx = recorded_indices(plan, exchanges, group);
    &&& rs.len() == idx.len()
    &&& forall|k: int|
        0 <= k < idx.len() ==> records_outcome(
            #[trigger] rs[k],
            plan[idx[k]].server@,
            exchanges[idx[k]]->0.elapsed_ms,
            exchanges[idx[k]]->0.outcome,
        )
}

/// Whether a response header of the old server is relayed to the client.
pub fn is_relayed_response_header(name: &str) -> (r: bool)
    ensures
        r == response_header_relayed(name@),
{
    !equals_ignore_ascii_case(name, "content-length") && !equals_ignore_ascii_case(
        name,
        "transfer-encoding",
    ) && !equals_ignore_ascii_case(name, "connection")
}

/// The response headers relayed to the client.
pub fn relayed_headers(hs: &Vec<(String, Option<String>)>) -> (r: Vec<(String, String)>)
    ensures
        pairs_view(r@) == relayed_headers_from(headers_view(hs@)),
{
    let mut out: Vec<(String, String)> = Vec::new();
    let mut i: usize = 0;
    while i < hs.len()
        invariant
            i <= hs@.len(),
            pairs_view(out@) == relayed_headers_from(headers_view(hs@.take(i as int))),
        decreases hs.len() - i,
    {
        let ghost before = out@;
        let (name, value) = &hs[i];
        assert(hs@.take(i + 1).drop_last() =~= hs@.take(i as int));
        assert(headers_view(hs@.take(i + 1)).drop_last() =~= headers_view(hs@.take(i as int)));
        if is_relayed_response_header(name.as_str()) {
            match value {
                Some(v) => {
                    out.push((name.clone(), v.clone()));
                    assert(pairs_view(out@) =~= pairs_view(before).push((name@, v@)));
                },
                None => {},
            }
        }
        i = i + 1;
    }
    assert(hs@.take(hs@.len() as int) =~= hs@);
    out
}

fn bad_gateway() -> (r: ClientReply)
    ensures
        is_bad_gateway(r),
{
    ClientReply {
        status: 502,
        headers: Vec::new(),
        body: String::from_str("Upstream old server error"),
        relayed: false,
    }
}

/// The answer to the client, from the first old server's exchange only.
pub fn client_reply(plan: &Vec<UpstreamRequest>, exchanges: &Vec<Option<Exchange>>) -> (r: ClientReply)
    ensures
        answers(r, first_old_exchange(plan@, exchanges@)),
{
    if plan.len() == 0 || exchanges.len() == 0 {
        return bad_gateway();
    }
    match plan[0].group {
        ServerGroup::New => bad_gateway(),
        ServerGroup::Old => match &exchanges[0] {
            Some(e) => match &e.outcome {
                UpstreamOutcome::Completed { status, headers, text } => ClientReply {
                    status: client_status(*status),
                    headers: relayed_headers(headers),
                    body: text.clone(),
                    relayed: true,
                },
                _ => bad_gateway(),
            },
            None => bad_gateway(),
        },
    }
}

fn record_group(
    plan: &Vec<UpstreamRequest>,
    exchanges: &Vec<Option<Exchange>>,
    group: ServerGroup,
) -> (r: Vec<ResponseInfo>)
    ensures
        records_group(r@, plan@, exchanges@, group),
{
    let mut out: Vec<ResponseInfo> = Vec::new();
    let mut i: usize = 0;
    while i < plan.len()
        invariant
            i <= plan@.len(),
            out@.len() == recorded_upto(plan@, exchanges@, group, i as nat).len(),
            forall|k: int|
                0 <= k < out@.len() ==> {
                    let idx = recorded_upto(plan@, exchanges@, group, i as nat);
                    records_outcome(
                        #[trigger] out@[k],
                        plan@[idx[k]].server@,
                        exchanges@[idx[k]]->0.elapsed_ms,
                        exchanges@[idx[k]]->0.outcome,
                    )
                },
        decreases plan.len() - i,
    {
        let ghost prev = recorded_upto(plan@, exchanges@, group, i as nat);
        let ghost before = out@;
        let same_group = match (plan[i].group, group) {
            (ServerGroup::Old, ServerGroup::Old) => true,
            (ServerGroup::New, ServerGroup::New) => true,
            _ => false,
        };
        if same_group && i < exchanges.len() {
            match &exchanges[i] {
                Some(e) => {
                    let rec = ResponseInfo::from_outcome(plan[i].server.as_str(), e.elapsed_ms, &e.outcome);
                    out.push(rec);
                    proof {
                        let next = recorded_upto(plan@, exchanges@, group, (i + 1) as nat);
                        assert(next == prev.push(i as int));
                        assert forall|k: int| 0 <= k < out@.len() implies records_outcome(
                            #[trigger] out@[k],
                            plan@[next[k]].server@,
                            exchanges@[next[k]]->0.elapsed_ms,
                            exchanges@[next[k]]->0.outcome,
                        ) by {
                            if k < before.len() {
                                assert(out@[k] == before[k]);
                                assert(next[k] == prev[k]);
                            }
                        }
                    }
                },
                None => {},
            }
        }
        i = i + 1;
    }
    out
}

/// Completes a proxied request whose planned upstream requests are `plan` and
/// whose exchanges are `exchanges`, position by position (`None` for a task
/// that did not finish). The record holds, per group and in plan order, the
/// finished exchanges under the servers they were planned for; the answer to
/// the client relays the first old server's response, or is a `502` when it
/// has none.
pub fn conclude_request(
    timestamp: String,
    request: RequestInfo,
    plan: &Vec<UpstreamRequest>,
    exchanges: &Vec<Option<Exchange>>,
) -> (r: (ProxyResult, ClientReply))
    ensures
        r.0.timestamp == timestamp,
        r.0.request == request,
        records_group(r.0.old_responses@, plan@, exchanges@, ServerGroup::Old),
        records_group(r.0.new_responses@, plan@, exchanges@, ServerGroup::New),
        answers(r.1, first_old_exchange(plan@, exchanges@)),
{
    let old_responses = record_group(plan, exchanges, ServerGroup::Old);
    let new_responses = record_group(plan, exchanges, ServerGroup::New);
    let reply = client_reply(plan, exchanges);
    (ProxyResult { timestamp, request, old_responses, new_responses }, reply)
}

proof fn lemma_recorded_complete(
    plan: Seq<UpstreamRequest>,
    exchanges: Seq<Option<Exchange>>,
    n_old: nat,
    n: nat,
)
    requires
        n <= plan.len(),
        exchanges.len() == plan.len(),
        n_old <= plan.len(),
        forall|i: int| 0 <= i < plan.len() ==> #[trigger] exchanges[i] is Some,
        forall|i: int| 0 <= i < n_old ==> #[trigger] plan[i].group == ServerGroup::Old,
        forall|i: int| n_old <= i < plan.len() ==> #[trigger] plan[i].group == ServerGroup::New,
    ensures
        recorded_upto(plan, exchanges, ServerGroup::Old, n) =~= Seq::new(
            if n <= n_old { n } else { n_old },
            |k: int| k,
        ),
        recorded_upto(plan, exchanges, ServerGroup::New, n) =~= Seq::new(
            if n <= n_old { 0 } else { (n - n_old) as nat },
            |k: int| n_old + k,
        ),
    decreases n,
{
    if n > 0 {
        lemma_recorded_complete(plan, exchanges, n_old, (n - 1) as nat);
        assert(exchanges[n - 1] is Some);
        if n - 1 < n_old {
            assert(plan[n - 1].group == ServerGroup::Old);
        } else {
            assert(plan[n - 1].group == ServerGroup::New);
        }
    }
}

/// When every planned exchange finished, the record follows the plan exactly:
/// with the old servers planned first (`n_old` of them) and the new servers
/// after, the i-th old record is that of the i-th planned request, and the i-th
/// new record that of the request `n_old + i`.
pub proof fn law_records_follow_plan(
    plan: Seq<UpstreamRequest>,
    exchanges: Seq<Option<Exchange>>,
    n_old: nat,
)
    requires
        exchanges.len() == plan.len(),
        n_old <= plan.len(),
        forall|i: int| 0 <= i < plan.len() ==> #[trigger] exchanges[i] is Some,
        forall|i: int| 0 <= i < n_old ==> #[trigger] plan[i].group == ServerGroup::Old,
        forall|i: int| n_old <= i < plan.len() ==> #[trigger] plan[i].group == ServerGroup::New,
    ensures
        recorded_indices(plan, exchanges, ServerGroup::Old) =~= Seq::new(n_old, |k: int| k),
        recorded_indices(plan, exchanges, ServerGroup::New) =~= Seq::new(
            (plan.len() - n_old) as nat,
            |k: int| n_old + k,
        ),
{
    lemma_recorded_complete(plan, exchanges, n_old, plan.len());
}

/// When every planned exchange finished, and the plan holds one request per old
/// server of `old_servers`, in order, followed by one per new server of
/// `new_servers`, in order (as `plan_upstream_requests` lays it out), the i-th
/// old record names the i-th old server and the i-th new record the i-th new
/// server.
pub proof fn law_records_name_planned_servers(
    old_rs: Seq<ResponseInfo>,
    new_rs: Seq<ResponseInfo>,
    plan: Seq<UpstreamRequest>,
    exchanges: Seq<Option<Exchange>>,
    old_servers: Seq<Seq<char>>,
    new_servers: Seq<Seq<char>>,
)
    requires
        records_group(old_rs, plan, exchanges, ServerGroup::Old),
        records_group(new_rs, plan, exchanges, ServerGroup::New),
        plan.len() == old_servers.len() + new_servers.len(),
        exchanges.len() == plan.len(),
        forall|i: int| 0 <= i < plan.len() ==> #[trigger] exchanges[i] is Some,
        forall|i: int|
            0 <= i < old_servers.len() ==> #[trigger] plan[i].group == ServerGroup::Old
                && plan[i].server@ == old_servers[i],
        forall|i: int|
            0 <= i < new_servers.len() ==> #[trigger] plan[old_servers.len() + i].group
                == ServerGroup::New && plan[old_servers.len() + i].server@ == new_servers[i],
    ensures
        old_rs.len() == old_servers.len(),
        new_rs.len() == new_servers.len(),
        forall|k: int| 0 <= k < old_rs.len() ==> (#[trigger] old_rs[k]).server@ == old_servers[k],
        forall|k: int| 0 <= k < new_rs.len() ==> (#[trigger] new_rs[k]).server@ == new_servers[k],
{
    let n_old = old_servers.len();
    assert forall|i: int| 0 <= i < n_old implies #[trigger] plan[i].group == ServerGroup::Old by {}
    assert forall|i: int| n_old <= i < plan.len() implies #[trigger] plan[i].group
        == ServerGroup::New by {
        assert(plan[n_old + (i - n_old)].group == ServerGroup::New);
    }
    law_records_follow_plan(plan, exchanges, n_old);
    let old_idx = recorded_indices(plan, exchanges, ServerGroup::Old);
    let new_idx = recorded_indices(plan, exchanges, ServerGroup::New);
    assert forall|k: int| 0 <= k < old_rs.len() implies (#[trigger] old_rs[k]).server@
        == old_servers[k] by {
        assert(old_idx[k] == k);
        assert(plan[k].group == ServerGroup::Old);
    }
    assert forall|k: int| 0 <= k < new_rs.len() implies (#[trigger] new_rs[k]).server@
        == new_servers[k] by {
        assert(new_idx[k] == n_old + k);
        assert(plan[n_old + k].group == ServerGroup::New);
    }
}

/// The client hears the first old server's response whenever that exchange
/// completed, whatever its status: a 4xx or 5xx is relayed like a 2xx, with the
/// same status where it is a valid HTTP status (else 500), the whole body, and
/// the response headers that `law_response_headers_relayed` describes.
/// The `502` answer comes exactly when the first planned request is not to an
/// old server, or its exchange is missing, failed, or had an unreadable body.
pub proof fn law_reply_relays_first_old_response(
    r: ClientReply,
    plan: Seq<UpstreamRequest>,
    exchanges: Seq<Option<Exchange>>,
)
    requires
        answers(r, first_old_exchange(plan, exchanges)),
    ensures
        ({
            &&& plan.len() > 0
            &&& plan[0].group == ServerGroup::Old
            &&& exchanges.len() > 0
            &&& exchanges[0] is Some
            &&& exchanges[0]->0.outcome is Completed
        }) ==> {
            let status = exchanges[0]->0.outcome->Completed_status;
            &&& r.relayed
            &&& r.body@ == exchanges[0]->0.outcome->Completed_text@
            &&& pairs_view(r.headers@) == relayed_headers_from(
                headers_view(exchanges[0]->0.outcome->Completed_headers@),
            )
            &&& 100 <= status <= 999 ==> r.status == status
            &&& !(100 <= status <= 999) ==> r.status == 500
        },
        !({
            &&& plan.len() > 0
            &&& plan[0].group == ServerGroup::Old
            &&& exchanges.len() > 0
            &&& exchanges[0] is Some
            &&& exchanges[0]->0.outcome is Completed
        }) ==> {
            &&& !r.relayed
            &&& r.status == 502
            &&& r.headers@.len() == 0
            &&& r.body@ == "Upstream old server error"@
        },
{
}

/// The old server's response headers reach the client in their order, all of
/// them with a text value but the framing headers `content-length`,
/// `transfer-encoding` and `connection` (ignoring ASCII case); those three
/// never do, and nothing else is added.
pub proof fn law_response_headers_relayed(hs: Seq<(Seq<char>, Option<Seq<char>>)>)
    ensures
        forall|i: int|
            0 <= i < hs.len() && (#[trigger] hs[i]).1 is Some
                && !eq_ignore_ascii_case(hs[i].0, "content-length"@)
                && !eq_ignore_ascii_case(hs[i].0, "transfer-encoding"@)
                && !eq_ignore_ascii_case(hs[i].0, "connection"@) ==> exists|k: int|
                0 <= k < relayed_headers_from(hs).len() && #[trigger] relayed_headers_from(hs)[k]
                    == (hs[i].0, hs[i].1->0) && relayed_headers_from(hs.take(i)).len() == k,
        forall|k: int|
            0 <= k < relayed_headers_from(hs).len() ==> {
                let p = #[trigger] relayed_headers_from(hs)[k];
                &&& !eq_ignore_ascii_case(p.0, "content-length"@)
                &&& !eq_ignore_ascii_case(p.0, "transfer-encoding"@)
                &&& !eq_ignore_ascii_case(p.0, "connection"@)
                &&& exists|j: int| 0 <= j < hs.len() && #[trigger] hs[j] == (p.0, Some(p.1))
            },
    decreases hs.len(),
{
    if hs.len() > 0 {
        let init = hs.drop_last();
        law_response_headers_relayed(init);
        let n = hs.len() - 1;
        let rest = relayed_headers_from(init);
        assert forall|i: int|
            0 <= i < hs.len() && (#[trigger] hs[i]).1 is Some
                && !eq_ignore_ascii_case(hs[i].0, "content-length"@)
                && !eq_ignore_ascii_case(hs[i].0, "transfer-encoding"@)
                && !eq_ignore_ascii_case(hs[i].0, "connection"@) implies exists|k: int|
                0 <= k < relayed_headers_from(hs).len() && #[trigger] relayed_headers_from(hs)[k]
                    == (hs[i].0, hs[i].1->0) && relayed_headers_from(hs.take(i)).len() == k by {
            if i < n {
                assert(hs[i] == init[i]);
                assert(hs.take(i) =~= init.take(i));
                let k = choose|k: int|
                    0 <= k < rest.len() && #[trigger] rest[k] == (init[i].0, init[i].1->0)
                        && relayed_headers_from(init.take(i)).len() == k;
                assert(relayed_headers_from(hs)[k] == rest[k]);
            } else {
                assert(hs.take(i) =~= init);
                assert(relayed_headers_from(hs)[rest.len() as int] == (hs[i].0, hs[i].1->0));
            }
        }
        assert forall|k: int| 0 <= k < relayed_headers_from(hs).len() implies {
            let p = #[trigger] relayed_headers_from(hs)[k];
            &&& !eq_ignore_ascii_case(p.0, "content-length"@)
            &&& !eq_ignore_ascii_case(p.0, "transfer-encoding"@)
            &&& !eq_ignore_ascii_case(p.0, "connection"@)
            &&& exists|j: int| 0 <= j < hs.len() && #[trigger] hs[j] == (p.0, Some(p.1))
        } by {
            let p = relayed_headers_from(hs)[k];
            if k < rest.len() {
                assert(p == rest[k]);
                let j = choose|j: int| 0 <= j < init.len() && #[trigger] init[j] == (p.0, Some(p.1));
                assert(hs[j] == init[j]);
            } else {
                assert(hs[n] == (p.0, Some(p.1)));
            }
        }
    }
}

/// The answer depends on the first old server's exchange alone: two requests
/// with the same plan whose first exchanges agree get the same status, body and
/// headers, whatever the other servers did.
pub proof fn law_reply_ignores_other_servers(
    r1: ClientReply,
    r2: ClientReply,
    plan: Seq<UpstreamRequest>,
    ex1: Seq<Option<Exchange>>,
    ex2: Seq<Option<Exchange>>,
)
    requires
        answers(r1, first_old_exchange(plan, ex1)),
        answers(r2, first_old_exchange(plan, ex2)),
        ex1.len() > 0 <==> ex2.len() > 0,
        ex1.len() > 0 ==> ex1[0] == ex2[0],
    ensures
        r1.status == r2.status,
        r1.body@ == r2.body@,
        r1.relayed == r2.relayed,
        pairs_view(r1.headers@) == pairs_view(r2.headers@),
{
}

} // verus!
