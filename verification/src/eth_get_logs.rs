//! The log scraper's decisions.
//!
//! The scraper walks a chain from the block after the scrape cursor up
//! to the last observed block, at most `MAX_BLOCK_SPREAD` blocks per
//! request. A response that is too large halves the range; when a single
//! block still exceeds the limit, that block is recorded as skipped and
//! the cursor moves past it. The RPC transport itself is an external
//! collaborator: the driver performs the call and hands the outcome to
//! [`handle_get_logs_result`].

use vstd::prelude::*;
use vstd::string::StrSliceExecFns;
use crate::chain_fusion::{LogEntry, LogEntryView};
use crate::types::H160Ext;
use crate::state::{contains_source, Network};

verus! {

/// Certain RPC providers bound the number of blocks per query; ranges
/// are clamped to this spread.
pub const MAX_BLOCK_SPREAD: u16 = 500;

/// The rejection class of a host call, as the adapter reports it.
#[derive(Clone, Copy, Debug, PartialEq, Eq, Structural)]
pub enum RejectionCode {
    NoError,
    SysFatal,
    SysTransient,
    DestinationInvalid,
    CanisterReject,
    CanisterError,
    Unknown,
}

/// Failure of an HTTP outcall behind the RPC adapter.
#[derive(Debug)]
pub enum HttpOutcallError {
    IcError { code: RejectionCode, message: String },
    InvalidHttpJsonRpcResponse { status: u16, body: String, parsing_error: Option<String> },
}

/// Failure reported by an RPC provider.
#[derive(Debug)]
pub enum RpcError {
    JsonRpcError { code: i64, message: String },
    ProviderError(String),
    ValidationError(String),
    HttpOutcallError(HttpOutcallError),
}

/// Failure of one `eth_getLogs` request.
#[derive(Debug)]
pub enum GetLogsError {
    InconsistentResults,
    HttpOutcallError(HttpOutcallError),
    CallRejected(String),
    RpcError(RpcError),
}

/// Failure of one `eth_getBlockByNumber` request.
#[derive(Debug)]
pub enum GetBlockNumberError {
    InconsistentResults,
}

/// What the multi-provider adapter reported for `eth_getLogs`.
#[derive(Debug)]
pub enum MultiGetLogsResult {
    Consistent(Result<Vec<LogEntry>, RpcError>),
    Inconsistent,
}

/// Reads the multi-provider `eth_getLogs` outcome: consistent logs are
/// returned, a consistent provider error is surfaced as an RPC error,
/// and an inconsistent answer is never applied.
pub fn interpret_get_logs_result(result: MultiGetLogsResult) -> (r: Result<
    Vec<LogEntry>,
    GetLogsError,
>)
    ensures
        match result {
            MultiGetLogsResult::Consistent(Result::Ok(logs)) => r is Ok && r->Ok_0 == logs,
            MultiGetLogsResult::Consistent(Result::Err(_)) => r matches Err(
                GetLogsError::RpcError(_),
            ),
            MultiGetLogsResult::Inconsistent => r matches Err(GetLogsError::InconsistentResults),
        },
{
    match result {
        MultiGetLogsResult::Consistent(Ok(logs)) => Ok(logs),
        MultiGetLogsResult::Consistent(Err(e)) => Err(GetLogsError::RpcError(e)),
        MultiGetLogsResult::Inconsistent => Err(GetLogsError::InconsistentResults),
    }
}

/// Does `n` occur in `h` as a contiguous run?
pub open spec fn spec_contains_str(h: Seq<char>, n: Seq<char>) -> bool {
    exists|i: int| 0 <= i <= h.len() - n.len() && #[trigger] h.subrange(i, i + n.len()) == n
}

/// Does `n` match `h` at offset `i`?
fn matches_at(h: &str, n: &str, i: usize) -> (r: bool)
    requires
        i + n@.len() <= h@.len(),
        h@.len() <= usize::MAX,
    ensures
        r == (h@.subrange(i as int, i + n@.len()) == n@),
{
    let nl = n.unicode_len();
    let mut j: usize = 0;
    while j < nl
        invariant
            j <= nl,
            nl == n@.len(),
            i + nl <= h@.len() <= usize::MAX,
            forall|y: int| 0 <= y < j ==> h@[i + y] == n@[y],
        decreases nl - j,
    {
        let hc = h.get_char(i + j);
        let nc = n.get_char(j);
        if hc != nc {
            proof {
                assert(h@.subrange(i as int, i + n@.len())[j as int] == h@[i + j]);
            }
            return false;
        }
        j += 1;
    }
    proof {
        assert(h@.subrange(i as int, i + n@.len()) =~= n@);
    }
    true
}

/// Substring search.
pub fn str_contains(h: &str, n: &str) -> (r: bool)
    ensures
        r == spec_contains_str(h@, n@),
{
    let hl = h.unicode_len();
    let nl = n.unicode_len();
    if nl > hl {
        proof {
            assert(!spec_contains_str(h@, n@));
        }
        return false;
    }
    if nl == 0 {
        proof {
            assert(h@.subrange(0, 0) =~= n@);
            assert(spec_contains_str(h@, n@)) by {
                assert(0 <= 0 <= h@.len() - n@.len() && h@.subrange(0, 0 + n@.len() as int) == n@);
            }
        }
        return true;
    }
    let bound = hl - nl;
    let mut i: usize = 0;
    while i <= bound
        invariant
            1 <= nl <= hl,
            hl == h@.len(),
            nl == n@.len(),
            bound == hl - nl,
            i <= bound + 1,
            forall|x: int| 0 <= x < i ==> #[trigger] h@.subrange(x, x + n@.len()) != n@,
        decreases bound + 1 - i,
    {
        let hit = matches_at(h, n, i);
        if hit {
            return true;
        }
        i += 1;
    }
    false
}

/// Is this rejection the provider telling us the response was too large?
pub fn is_response_too_large(code: &RejectionCode, message: &str) -> (r: bool)
    ensures
        r == (*code == RejectionCode::SysFatal && spec_contains_str(message@, "size limit"@)),
{
    let fatal = *code == RejectionCode::SysFatal;
    fatal && str_contains(message, "size limit")
}

impl HttpOutcallError {
    /// Is this outcall failure a response-too-large rejection?
    pub fn is_response_too_large(&self) -> (r: bool)
        ensures
            r == match *self {
                HttpOutcallError::IcError { code, message } => code == RejectionCode::SysFatal
                    && spec_contains_str(message@, "size limit"@),
                HttpOutcallError::InvalidHttpJsonRpcResponse { .. } => false,
            },
    {
        match self {
            HttpOutcallError::IcError { code, message } => is_response_too_large(
                code,
                message.as_str(),
            ),
            _ => false,
        }
    }
}

/// Does this `eth_getLogs` failure call for range narrowing?
pub open spec fn spec_is_too_large_error(e: &GetLogsError) -> bool {
    match e {
        GetLogsError::RpcError(RpcError::HttpOutcallError(HttpOutcallError::IcError {
            code,
            message,
        })) => *code == RejectionCode::SysFatal && spec_contains_str(message@, "size limit"@),
        _ => false,
    }
}

/// The address list of one `eth_getLogs` query, in its text form, or
/// nothing when no endpoint address is watched: then no query is made
/// and the range yields no logs, exactly as if the provider had
/// answered with none. Without this guard an empty address list would
/// be an unfiltered query.
pub fn get_logs_addresses(n: &Network) -> (r: Option<Vec<String>>)
    ensures
        r is Some <==> n.get_logs_address@.len() > 0,
        r is Some ==> r->0@.len() == n.get_logs_address@.len() && (forall|i: int|
            0 <= i < n.get_logs_address@.len() ==> (#[trigger] r->0@[i])@ == seq!['0', 'x']
                + crate::hexs::hex_of_bytes(n.get_logs_address@[i]@)),
{
    let m = n.get_logs_address.len();
    if m == 0 {
        return None;
    }
    let mut out: Vec<String> = Vec::new();
    let mut i: usize = 0;
    while i < m
        invariant
            i <= m,
            m == n.get_logs_address@.len(),
            out@.len() == i,
            forall|j: int|
                0 <= j < i ==> (#[trigger] out@[j])@ == seq!['0', 'x']
                    + crate::hexs::hex_of_bytes(n.get_logs_address@[j]@),
        decreases m - i,
    {
        out.push(n.get_logs_address[i].to_repr());
        i += 1;
    }
    Some(out)
}

/// The range of the next `eth_getLogs` request: from the block after the
/// scrape cursor, spanning at most `MAX_BLOCK_SPREAD` extra blocks, up
/// to the target; nothing when the cursor has reached the target.
pub fn next_scrape_range(last_scraped: u64, target: u64) -> (r: Option<(u64, u64)>)
    ensures
        match r {
            Some((from, to)) => {
                &&& last_scraped < target
                &&& from == last_scraped + 1
                &&& to == if from + MAX_BLOCK_SPREAD <= target {
                    (from + MAX_BLOCK_SPREAD) as u64
                } else {
                    target
                }
                &&& from <= to <= target
            },
            None => last_scraped >= target,
        },
{
    if last_scraped >= target {
        return None;
    }
    let from = last_scraped + 1;
    let spread = MAX_BLOCK_SPREAD as u64;
    let to = if from <= u64::MAX - spread && from + spread <= target {
        from + spread
    } else {
        target
    };
    Some((from, to))
}

/// The decision after one ranged `eth_getLogs` attempt.
#[derive(Clone, Copy, Debug, PartialEq, Eq, Structural)]
pub enum ScrapeStep {
    /// The cursor advanced to this block (inclusive).
    Advanced { scraped_to: u64 },
    /// The response was too large; retry with this smaller upper bound.
    Narrow { new_to: u64 },
    /// A failure that narrowing cannot cure; the scrape attempt ends
    /// with cursors unchanged.
    Abort,
}

/// The queue after recording each fresh finalized log of `logs` in order:
/// a log without a source, or whose source is already queued or applied,
/// is dropped.
pub open spec fn spec_record_logs(
    pending: Seq<((Seq<char>, u64), LogEntryView)>,
    processed: Seq<(Seq<char>, u64)>,
    logs: Seq<LogEntryView>,
) -> Seq<((Seq<char>, u64), LogEntryView)>
    decreases logs.len(),
{
    if logs.len() == 0 {
        pending
    } else {
        let e = logs[0];
        let fresh = e.transaction_hash is Some && e.log_index is Some && !(exists|i: int|
            0 <= i < pending.len() && (#[trigger] pending[i]).0 == (
                e.transaction_hash->0,
                e.log_index->0,
            )) && !processed.contains((e.transaction_hash->0, e.log_index->0));
        let next = if fresh {
            pending.push(((e.transaction_hash->0, e.log_index->0), e))
        } else {
            pending
        };
        spec_record_logs(next, processed, logs.subrange(1, logs.len() as int))
    }
}

/// The queued pairs, by their mathematical reading.
pub open spec fn pending_views(s: Seq<(crate::chain_fusion::LogSource, LogEntry)>) -> Seq<
    ((Seq<char>, u64), LogEntryView),
> {
    Seq::new(s.len(), |i: int| (s[i].0@, s[i].1@))
}

/// The applied sources, by their mathematical reading.
pub open spec fn processed_sources(s: Seq<(crate::chain_fusion::LogSource, LogEntry)>) -> Seq<
    (Seq<char>, u64),
> {
    Seq::new(s.len(), |i: int| s[i].0@)
}

/// Applies one ranged `eth_getLogs` outcome to the chain's state.
///
/// On success every fresh finalized log is queued in response order and
/// the cursor advances to `to`. A response-too-large failure narrows the
/// range, or, when a single block is already too large, records the
/// block as skipped and advances past it. Any other failure aborts the
/// attempt with cursors untouched.
pub fn handle_get_logs_result(
    n: &mut Network,
    from: u64,
    to: u64,
    result: Result<Vec<LogEntry>, GetLogsError>,
) -> (r: ScrapeStep)
    requires
        old(n).wf(),
        from == old(n).last_scraped_block_number + 1,
        from <= to,
        old(n).last_observed_block_number is Some,
        to <= old(n).last_observed_block_number->0,
    ensures
        final(n).wf(),
        final(n).last_observed_block_number == old(n).last_observed_block_number,
        final(n).last_processed_block_number == old(n).last_processed_block_number,
        final(n).processed_logs@ == old(n).processed_logs@,
        final(n).nonce == old(n).nonce,
        match result {
            Ok(logs) => {
                &&& r == (ScrapeStep::Advanced { scraped_to: to })
                &&& final(n).last_scraped_block_number == to
                &&& final(n).skipped_blocks@ == old(n).skipped_blocks@
                &&& pending_views(final(n).logs_to_process@) == spec_record_logs(
                    pending_views(old(n).logs_to_process@),
                    processed_sources(old(n).processed_logs@),
                    Seq::new(logs@.len(), |i: int| logs@[i]@),
                )
            },
            Err(e) => {
                if spec_is_too_large_error(&e) {
                    if from == to {
                        &&& r == (ScrapeStep::Advanced { scraped_to: from })
                        &&& final(n).last_scraped_block_number == from
                        &&& final(n).skipped_blocks@ == old(n).skipped_blocks@.push(from)
                        &&& final(n).logs_to_process@ == old(n).logs_to_process@
                    } else {
                        &&& r == (ScrapeStep::Narrow { new_to: (from + (to - from) / 2) as u64 })
                        &&& *final(n) == *old(n)
                    }
                } else {
                    &&& r == ScrapeStep::Abort
                    &&& *final(n) == *old(n)
                }
            },
        },
{
    match result {
        Ok(logs) => {
            let ghost pend0 = pending_views(n.logs_to_process@);
            let ghost procs = processed_sources(n.processed_logs@);
            let ghost lviews = Seq::new(logs@.len(), |i: int| logs@[i]@);
            let mut i: usize = 0;
            let m = logs.len();
            proof {
                assert(lviews.subrange(0, lviews.len() as int) =~= lviews);
            }
            while i < m
                invariant
                    i <= m,
                    m == logs@.len(),
                    lviews == Seq::new(logs@.len(), |x: int| logs@[x]@),
                    n.wf(),
                    from == old(n).last_scraped_block_number + 1,
                    from <= to,
                    old(n).last_observed_block_number is Some,
                    to <= old(n).last_observed_block_number->0,
                    n.last_scraped_block_number == old(n).last_scraped_block_number,
                    n.last_observed_block_number == old(n).last_observed_block_number,
                    n.last_processed_block_number == old(n).last_processed_block_number,
                    n.processed_logs@ == old(n).processed_logs@,
                    n.skipped_blocks@ == old(n).skipped_blocks@,
                    n.nonce == old(n).nonce,
                    procs == processed_sources(old(n).processed_logs@),
                    pend0 == pending_views(old(n).logs_to_process@),
                    spec_record_logs(pend0, procs, lviews) == spec_record_logs(
                        pending_views(n.logs_to_process@),
                        procs,
                        lviews.subrange(i as int, lviews.len() as int),
                    ),
                decreases m - i,
            {
                let ghost tail = lviews.subrange(i as int, lviews.len() as int);
                let ghost e = lviews[i as int];
                let ghost pre_logs = n.logs_to_process@;
                let ghost pend_before = pending_views(pre_logs);
                proof {
                    assert(tail[0] == e);
                    assert(tail.subrange(1, tail.len() as int) =~= lviews.subrange(
                        i + 1,
                        lviews.len() as int,
                    ));
                    assert(logs@[i as int]@ == e);
                }
                let has = match (&logs[i].transaction_hash, &logs[i].log_index) {
                    (Some(_), Some(_)) => true,
                    _ => false,
                };
                if has {
                    proof {
                        assert(logs@[i as int].has_source());
                        assert(logs@[i as int].spec_source() == (
                            e.transaction_hash->0,
                            e.log_index->0,
                        ));
                    }
                    let ghost src = (e.transaction_hash->0, e.log_index->0);
                    let res = n.record_log_to_process(&logs[i]);
                    proof {
                        match res {
                            Ok(()) => {
                                assert(!(exists|x: int|
                                    0 <= x < pend_before.len() && (#[trigger] pend_before[x]).0
                                        == src)) by {
                                    if exists|x: int|
                                        0 <= x < pend_before.len() && (
                                        #[trigger] pend_before[x]).0 == src {
                                        let w = choose|x: int|
                                            0 <= x < pend_before.len() && (
                                            #[trigger] pend_before[x]).0 == src;
                                        assert(pre_logs[w].0@ == src);
                                        assert(crate::state::contains_source(pre_logs, src));
                                    }
                                }
                                assert(!procs.contains(src)) by {
                                    if procs.contains(src) {
                                        let w = choose|x: int|
                                            0 <= x < procs.len() && procs[x] == src;
                                        assert(n.processed_logs@[w].0@ == src);
                                        assert(crate::state::contains_source(
                                            n.processed_logs@,
                                            src,
                                        ));
                                    }
                                }
                                assert(pending_views(n.logs_to_process@) =~= pend_before.push(
                                    (src, e),
                                )) by {
                                    let pv = pending_views(n.logs_to_process@);
                                    assert(forall|x: int|
                                        0 <= x < pre_logs.len()
                                            ==> n.logs_to_process@[x] == #[trigger] n.logs_to_process@.take(
                                            pre_logs.len() as int,
                                        )[x]);
                                    assert(pv.len() == pend_before.len() + 1);
                                    assert(pv[pend_before.len() as int] == (src, e));
                                }
                                assert(spec_record_logs(pend_before, procs, tail)
                                    == spec_record_logs(
                                    pend_before.push((src, e)),
                                    procs,
                                    tail.subrange(1, tail.len() as int),
                                ));
                            },
                            Err(crate::state::RecordError::AlreadyPending) => {
                                assert(crate::state::contains_source(pre_logs, src));
                                let w = choose|x: int|
                                    0 <= x < pre_logs.len() && (#[trigger] pre_logs[x]).0@
                                        == src;
                                assert(pend_before[w].0 == src);
                                assert(spec_record_logs(pend_before, procs, tail)
                                    == spec_record_logs(
                                    pend_before,
                                    procs,
                                    tail.subrange(1, tail.len() as int),
                                ));
                            },
                            Err(crate::state::RecordError::AlreadyProcessed) => {
                                assert(crate::state::contains_source(n.processed_logs@, src));
                                let w = choose|x: int|
                                    0 <= x < n.processed_logs@.len() && (
                                    #[trigger] n.processed_logs@[x]).0@ == src;
                                assert(procs[w] == src);
                                assert(procs.contains(src));
                                assert(spec_record_logs(pend_before, procs, tail)
                                    == spec_record_logs(
                                    pend_before,
                                    procs,
                                    tail.subrange(1, tail.len() as int),
                                ));
                            },
                            Err(crate::state::RecordError::AlreadySkipped) => {},
                        }
                    }
                } else {
                    proof {
                        assert(!(e.transaction_hash is Some && e.log_index is Some));
                        assert(spec_record_logs(pend_before, procs, tail) == spec_record_logs(
                            pend_before,
                            procs,
                            tail.subrange(1, tail.len() as int),
                        ));
                    }
                }
                i += 1;
            }
            proof {
                assert(lviews.subrange(m as int, lviews.len() as int).len() == 0);
            }
            n.last_scraped_block_number = to;
            ScrapeStep::Advanced { scraped_to: to }
        },
        Err(e) => {
            let too_large = match &e {
                GetLogsError::RpcError(RpcError::HttpOutcallError(h)) => h.is_response_too_large(),
                _ => false,
            };
            if too_large {
                if from == to {
                    n.last_scraped_block_number = from;
                    let ghost mid = *n;
                    let res = n.record_skipped_block(from);
                    proof {
                        assert(res is Ok) by {
                            if crate::state::contains_block(mid.skipped_blocks@, from) {
                                let w = choose|w: int|
                                    0 <= w < mid.skipped_blocks@.len() && mid.skipped_blocks@[w]
                                        == from;
                                assert(old(n).skipped_blocks@[w] <= old(n).last_scraped_block_number);
                            }
                        }
                    }
                    ScrapeStep::Advanced { scraped_to: from }
                } else {
                    let new_to = from + (to - from) / 2;
                    ScrapeStep::Narrow { new_to }
                }
            } else {
                ScrapeStep::Abort
            }
        },
    }
}

/// The finality outcome of one `eth_getBlockByNumber` request.
#[derive(Debug)]
pub enum GetBlockByNumberResult {
    Block(u64),
    Error(RpcError),
}

/// What the multi-provider adapter reported for `eth_getBlockByNumber`.
#[derive(Debug)]
pub enum MultiGetBlockByNumberResult {
    Consistent(GetBlockByNumberResult),
    Inconsistent,
}

/// Applies the outcome of a block-height refresh. A fresh consistent
/// height is stored, unless it would fall behind the scrape cursor:
/// storing such a regressed height would break the cursor order, which
/// this crate keeps as a strict invariant, so the old height stands
/// until the provider catches up; the returned target is the fresh
/// height either way, and a target at or below the cursor scrapes
/// nothing. A provider error keeps the previous height; an
/// inconsistent answer is surfaced and stores nothing.
pub fn update_last_observed_block_number(
    n: &mut Network,
    result: MultiGetBlockByNumberResult,
) -> (r: Result<Option<u64>, GetLogsError>)
    requires
        old(n).wf(),
    ensures
        final(n).wf(),
        final(n).last_scraped_block_number == old(n).last_scraped_block_number,
        final(n).last_processed_block_number == old(n).last_processed_block_number,
        final(n).logs_to_process@ == old(n).logs_to_process@,
        final(n).processed_logs@ == old(n).processed_logs@,
        final(n).skipped_blocks@ == old(n).skipped_blocks@,
        final(n).nonce == old(n).nonce,
        match result {
            MultiGetBlockByNumberResult::Consistent(GetBlockByNumberResult::Block(b)) => {
                &&& r == Result::<Option<u64>, GetLogsError>::Ok(Option::Some(b))
                &&& final(n).last_observed_block_number == if b
                    >= old(n).last_scraped_block_number {
                    Option::Some(b)
                } else {
                    old(n).last_observed_block_number
                }
            },
            MultiGetBlockByNumberResult::Consistent(GetBlockByNumberResult::Error(_)) => {
                &&& r == Result::<Option<u64>, GetLogsError>::Ok(
                    old(n).last_observed_block_number,
                )
                &&& final(n).last_observed_block_number == old(n).last_observed_block_number
            },
            MultiGetBlockByNumberResult::Inconsistent => {
                &&& r matches Err(GetLogsError::InconsistentResults)
                &&& *final(n) == *old(n)
            },
        },
{
    match result {
        MultiGetBlockByNumberResult::Consistent(GetBlockByNumberResult::Block(b)) => {
            if b >= n.last_scraped_block_number {
                n.last_observed_block_number = Some(b);
            }
            Ok(Some(b))
        },
        MultiGetBlockByNumberResult::Consistent(GetBlockByNumberResult::Error(_)) => {
            Ok(n.last_observed_block_number)
        },
        MultiGetBlockByNumberResult::Inconsistent => Err(GetLogsError::InconsistentResults),
    }
}

} // verus!
