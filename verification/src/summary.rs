//! What the result log reports of each proxied request besides the record
//! itself: how many servers of each group succeeded, and the statuses and
//! timings of the successful ones.
use vstd::prelude::*;
use crate::proxy::{ProxyResult, ResponseInfo};

verus! {

/// The successful responses, in order.
pub open spec fn successes_of(rs: Seq<ResponseInfo>) -> Seq<ResponseInfo>
    decreases rs.len(),
{
    if rs.len() == 0 {
        Seq::empty()
    } else {
        let rest = successes_of(rs.drop_last());
        if rs.last().success {
            rest.push(rs.last())
        } else {
            rest
        }
    }
}

/// The statuses of the successful responses, in order.
pub open spec fn success_statuses(rs: Seq<ResponseInfo>) -> Seq<u16> {
    successes_of(rs).map_values(|r: ResponseInfo| r.status)
}

/// The elapsed times of the successful responses, in order.
pub open spec fn success_times(rs: Seq<ResponseInfo>) -> Seq<u64> {
    successes_of(rs).map_values(|r: ResponseInfo| r.elapsed_ms)
}

/// Counts and per-server figures of one proxied request.
#[derive(Debug, Clone)]
pub struct LogSummary {
    pub old_success: usize,
    pub old_total: usize,
    pub new_success: usize,
    pub new_total: usize,
    pub old_statuses: Vec<u16>,
    pub new_statuses: Vec<u16>,
    pub old_times: Vec<u64>,
    pub new_times: Vec<u64>,
}

proof fn lemma_successes_len(rs: Seq<ResponseInfo>)
    ensures
        successes_of(rs).len() <= rs.len(),
    decreases rs.len(),
{
    if rs.len() > 0 {
        lemma_successes_len(rs.drop_last());
    }
}

/// The number, statuses and elapsed times of the successful responses.
fn successes(rs: &Vec<ResponseInfo>) -> (r: (usize, Vec<u16>, Vec<u64>))
    ensures
        r.0 == successes_of(rs@).len(),
        r.0 <= rs@.len(),
        r.1@ == success_statuses(rs@),
        r.2@ == success_times(rs@),
{
    let mut count: usize = 0;
    let mut statuses: Vec<u16> = Vec::new();
    let mut times: Vec<u64> = Vec::new();
    let mut i: usize = 0;
    while i < rs.len()
        invariant
            i <= rs@.len(),
            count == successes_of(rs@.take(i as int)).len(),
            count <= i,
            statuses@ == success_statuses(rs@.take(i as int)),
            times@ == success_times(rs@.take(i as int)),
        decreases rs.len() - i,
    {
        let ghost prev = rs@.take(i as int);
        assert(rs@.take(i + 1).drop_last() =~= prev);
        assert(rs@.take(i + 1).last() == rs@[i as int]);
        proof {
            lemma_successes_len(prev);
        }
        if rs[i].success {
            count = count + 1;
            statuses.push(rs[i].status);
            times.push(rs[i].elapsed_ms);
            assert(statuses@ =~= success_statuses(rs@.take(i + 1)));
            assert(times@ =~= success_times(rs@.take(i + 1)));
        } else {
            assert(statuses@ =~= success_statuses(rs@.take(i + 1)));
            assert(times@ =~= success_times(rs@.take(i + 1)));
        }
        i = i + 1;
    }
    assert(rs@.take(rs@.len() as int) =~= rs@);
    (count, statuses, times)
}

impl LogSummary {
    /// Summarises a proxied request: for each group, the number of successful
    /// responses, the number of responses, and the statuses and elapsed times
    /// of the successful responses in order.
    pub fn of(result: &ProxyResult) -> (s: LogSummary)
        ensures
            s.old_success == successes_of(result.old_responses@).len(),
            s.old_total == result.old_responses@.len(),
            s.new_success == successes_of(result.new_responses@).len(),
            s.new_total == result.new_responses@.len(),
            s.old_statuses@ == success_statuses(result.old_responses@),
            s.new_statuses@ == success_statuses(result.new_responses@),
            s.old_times@ == success_times(result.old_responses@),
            s.new_times@ == success_times(result.new_responses@),
            s.old_success <= s.old_total,
            s.new_success <= s.new_total,
            s.old_statuses@.len() == s.old_success && s.old_times@.len() == s.old_success,
            s.new_statuses@.len() == s.new_success && s.new_times@.len() == s.new_success,
    {
        let (old_success, old_statuses, old_times) = successes(&result.old_responses);
        let (new_success, new_statuses, new_times) = successes(&result.new_responses);
        LogSummary {
            old_success,
            old_total: result.old_responses.len(),
            new_success,
            new_total: result.new_responses.len(),
            old_statuses,
            new_statuses,
            old_times,
            new_times,
        }
    }
}

/// The log counts, lists and times exactly the successful responses, in their
/// order: each successful response is among them, at the position given by the
/// successes before it, and each of them is a successful response of the group.
pub proof fn law_summary_keeps_exactly_successes(rs: Seq<ResponseInfo>)
    ensures
        forall|i: int|
            0 <= i < rs.len() && (#[trigger] rs[i]).success ==> exists|k: int|
                0 <= k < successes_of(rs).len() && #[trigger] successes_of(rs)[k] == rs[i]
                    && successes_of(rs.take(i)).len() == k,
        forall|k: int|
            0 <= k < successes_of(rs).len() ==> (#[trigger] successes_of(rs)[k]).success
                && exists|j: int| 0 <= j < rs.len() && #[trigger] rs[j] == successes_of(rs)[k],
    decreases rs.len(),
{
    if rs.len() > 0 {
        let init = rs.drop_last();
        law_summary_keeps_exactly_successes(init);
        let n = rs.len() - 1;
        let rest = successes_of(init);
        assert forall|i: int| 0 <= i < rs.len() && (#[trigger] rs[i]).success implies exists|k: int|
            0 <= k < successes_of(rs).len() && #[trigger] successes_of(rs)[k] == rs[i]
                && successes_of(rs.take(i)).len() == k by {
            if i < n {
                assert(rs[i] == init[i]);
                assert(rs.take(i) =~= init.take(i));
                let k = choose|k: int|
                    0 <= k < rest.len() && #[trigger] rest[k] == init[i]
                        && successes_of(init.take(i)).len() == k;
                assert(successes_of(rs)[k] == rest[k]);
            } else {
                assert(rs.take(i) =~= init);
                assert(successes_of(rs)[rest.len() as int] == rs[i]);
            }
        }
        assert forall|k: int| 0 <= k < successes_of(rs).len() implies (#[trigger] successes_of(
            rs,
        )[k]).success && exists|j: int| 0 <= j < rs.len() && #[trigger] rs[j] == successes_of(rs)[k] by {
            if k < rest.len() {
                assert(successes_of(rs)[k] == rest[k]);
                let j = choose|j: int| 0 <= j < init.len() && #[trigger] init[j] == rest[k];
                assert(rs[j] == init[j]);
            } else {
                assert(rs[n] == successes_of(rs)[k]);
            }
        }
    }
}

} // verus!
