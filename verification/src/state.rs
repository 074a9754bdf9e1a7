//! Engine state: per-chain scan state and the process-wide singleton's
//! contents.
//!
//! A `Network` carries the durable cursors of one chain: the last block
//! observed from the provider, the last block scraped (inclusive), the
//! last block whose logs were applied, the logs awaiting application,
//! the logs already applied (for exactly-once enforcement), and the
//! blocks skipped because a single block's logs exceeded the provider's
//! response limit. `last_processed <= last_scraped <= last_observed`
//! holds of every well-formed network and is preserved by every
//! operation here.

use vstd::prelude::*;
use crate::chain_fusion::{BlockTag, LogEntry, LogSource, RpcService, RpcServices, TaskType};
use crate::types::{Address, UserId};
use crate::u256::U256;
use crate::wallet::Wallets;

verus! {

/// Full configuration to create a chain's state.
#[derive(Debug)]
pub struct NetworkInit {
    pub rpc_services: RpcServices,
    pub rpc_service: RpcService,
    pub last_scraped_block_number: u64,
    pub get_logs_address: Vec<Address>,
    pub block_tag: BlockTag,
}

/// A partial configuration patch; absent fields keep their value.
#[derive(Debug)]
pub struct NetworkMut {
    pub rpc_services: Option<RpcServices>,
    pub rpc_service: Option<RpcService>,
    pub last_scraped_block_number: Option<u64>,
    pub block_tag: Option<BlockTag>,
    pub get_logs_address: Option<Vec<Address>>,
    pub nonce: Option<u128>,
}

impl NetworkMut {
    pub fn new() -> (r: NetworkMut)
        ensures
            r.rpc_services is None,
            r.rpc_service is None,
            r.last_scraped_block_number is None,
            r.block_tag is None,
            r.get_logs_address is None,
            r.nonce is None,
    {
        NetworkMut {
            rpc_services: None,
            rpc_service: None,
            last_scraped_block_number: None,
            get_logs_address: None,
            block_tag: None,
            nonce: None,
        }
    }

    /// Are all fields needed for a fresh chain present?
    pub open spec fn is_complete(&self) -> bool {
        &&& self.rpc_services is Some
        &&& self.rpc_service is Some
        &&& self.last_scraped_block_number is Some
        &&& self.get_logs_address is Some
        &&& self.block_tag is Some
    }

    /// The full configuration, when every required field is present.
    pub fn into_init(self) -> (r: Option<NetworkInit>)
        ensures
            r is Some <==> self.is_complete(),
            r is Some ==> {
                &&& r->0.rpc_services == self.rpc_services->0
                &&& r->0.rpc_service == self.rpc_service->0
                &&& r->0.last_scraped_block_number == self.last_scraped_block_number->0
                &&& r->0.get_logs_address@ == self.get_logs_address->0@
                &&& r->0.block_tag == self.block_tag->0
            },
    {
        let rpc_services = match self.rpc_services {
            Some(x) => x,
            None => {
                return None;
            },
        };
        let rpc_service = match self.rpc_service {
            Some(x) => x,
            None => {
                return None;
            },
        };
        let last_scraped_block_number = match self.last_scraped_block_number {
            Some(x) => x,
            None => {
                return None;
            },
        };
        let get_logs_address = match self.get_logs_address {
            Some(x) => x,
            None => {
                return None;
            },
        };
        let block_tag = match self.block_tag {
            Some(x) => x,
            None => {
                return None;
            },
        };
        Some(
            NetworkInit {
                rpc_services,
                rpc_service,
                last_scraped_block_number,
                get_logs_address,
                block_tag,
            },
        )
    }
}

/// Is `src` the source of some recorded log?
pub open spec fn contains_source(s: Seq<(LogSource, LogEntry)>, src: (Seq<char>, u64)) -> bool {
    exists|i: int| 0 <= i < s.len() && (#[trigger] s[i]).0@ == src
}

/// All recorded sources are distinct.
pub open spec fn sources_unique(s: Seq<(LogSource, LogEntry)>) -> bool {
    forall|i: int, j: int| 0 <= i < j < s.len() ==> (#[trigger] s[i]).0@ != (#[trigger] s[j]).0@
}

pub open spec fn contains_block(s: Seq<u64>, n: u64) -> bool {
    exists|i: int| 0 <= i < s.len() && s[i] == n
}

/// The persistent scan state of one chain.
pub struct Network {
    pub rpc_services: RpcServices,
    pub rpc_service: RpcService,
    pub last_scraped_block_number: u64,
    pub last_observed_block_number: Option<u64>,
    pub last_processed_block_number: Option<u64>,
    pub logs_to_process: Vec<(LogSource, LogEntry)>,
    pub get_logs_address: Vec<Address>,
    pub processed_logs: Vec<(LogSource, LogEntry)>,
    pub skipped_blocks: Vec<u64>,
    pub block_tag: BlockTag,
    pub nonce: U256,
}

/// What was rejected when recording a log or a skipped block.
#[derive(Clone, Copy, Debug, PartialEq, Eq, Structural)]
pub enum RecordError {
    /// The source is already queued for processing.
    AlreadyPending,
    /// The source was already applied to the ledger.
    AlreadyProcessed,
    /// The block is already in the skip set.
    AlreadySkipped,
}

/// The state a chain starts in when built from a full configuration:
/// the configured fields carried over, cursors and records empty.
pub open spec fn network_matches_init(n: Network, init: NetworkInit) -> bool {
    &&& n.rpc_services == init.rpc_services
    &&& n.rpc_service == init.rpc_service
    &&& n.last_scraped_block_number == init.last_scraped_block_number
    &&& n.last_observed_block_number is None
    &&& n.last_processed_block_number is None
    &&& n.logs_to_process@.len() == 0
    &&& n.processed_logs@.len() == 0
    &&& n.skipped_blocks@.len() == 0
    &&& n.get_logs_address@ == init.get_logs_address@
    &&& n.block_tag == init.block_tag
    &&& n.nonce.as_nat() == 0
}

impl Network {
    /// The cursor order and the exactly-once bookkeeping.
    pub open spec fn wf(&self) -> bool {
        &&& self.spec_last_processed() <= self.last_scraped_block_number
        &&& match self.last_observed_block_number {
            Some(o) => self.last_scraped_block_number <= o,
            None => true,
        }
        &&& sources_unique(self.logs_to_process@)
        &&& sources_unique(self.processed_logs@)
        &&& forall|src: (Seq<char>, u64)|
            contains_source(self.logs_to_process@, src) ==> !contains_source(
                self.processed_logs@,
                src,
            )
        &&& forall|i: int|
            0 <= i < self.logs_to_process@.len() ==> (#[trigger] self.logs_to_process@[i]).1.has_source()
                && self.logs_to_process@[i].1.spec_source() == self.logs_to_process@[i].0@
        &&& forall|i: int, j: int|
            0 <= i < j < self.skipped_blocks@.len() ==> self.skipped_blocks@[i]
                != self.skipped_blocks@[j]
        &&& forall|i: int|
            0 <= i < self.skipped_blocks@.len() ==> #[trigger] self.skipped_blocks@[i]
                <= self.last_scraped_block_number
    }

    /// The highest applied block, zero before any was applied.
    pub open spec fn spec_last_processed(&self) -> u64 {
        match self.last_processed_block_number {
            Some(n) => n,
            None => 0,
        }
    }

    /// Builds a chain's state from a full configuration.
    pub fn from_init(init: NetworkInit) -> (r: Network)
        ensures
            r.wf(),
            network_matches_init(r, init),
    {
        Network {
            rpc_services: init.rpc_services,
            rpc_service: init.rpc_service,
            last_scraped_block_number: init.last_scraped_block_number,
            last_observed_block_number: None,
            last_processed_block_number: None,
            logs_to_process: Vec::new(),
            get_logs_address: init.get_logs_address,
            processed_logs: Vec::new(),
            skipped_blocks: Vec::new(),
            block_tag: init.block_tag,
            nonce: U256::zero(),
        }
    }

    /// Applies a configuration patch: each patched field replaces its
    /// value, absent fields keep theirs, and an address patch is
    /// ignored. A patched scrape cursor moves the scan position, so the
    /// observed height is reset with it; the cursor may not fall behind
    /// the applied blocks or the skipped blocks, which keeps the cursor
    /// order an invariant.
    pub fn mutate_with(&mut self, init: NetworkMut)
        requires
            old(self).wf(),
            init.last_scraped_block_number matches Some(c) ==> old(self).spec_last_processed()
                <= c && (forall|i: int|
                0 <= i < old(self).skipped_blocks@.len() ==> #[trigger] old(
                    self,
                ).skipped_blocks@[i] <= c),
        ensures
            final(self).wf(),
            final(self).last_scraped_block_number == match init.last_scraped_block_number {
                Some(n) => n,
                None => old(self).last_scraped_block_number,
            },
            final(self).last_observed_block_number == (if init.last_scraped_block_number
                is Some {
                Option::<u64>::None
            } else {
                old(self).last_observed_block_number
            }),
            final(self).nonce.as_nat() == match init.nonce {
                Some(n) => n as nat,
                None => old(self).nonce.as_nat(),
            },
            final(self).block_tag == match init.block_tag {
                Some(t) => t,
                None => old(self).block_tag,
            },
            final(self).rpc_services == match init.rpc_services {
                Some(x) => x,
                None => old(self).rpc_services,
            },
            final(self).rpc_service == match init.rpc_service {
                Some(x) => x,
                None => old(self).rpc_service,
            },
            final(self).get_logs_address == old(self).get_logs_address,
            final(self).skipped_blocks@ == old(self).skipped_blocks@,
            final(self).logs_to_process@ == old(self).logs_to_process@,
            final(self).processed_logs@ == old(self).processed_logs@,
            final(self).last_processed_block_number == old(self).last_processed_block_number,
    {
        if let Some(rpc_services) = init.rpc_services {
            self.rpc_services = rpc_services;
        }
        if let Some(rpc_service) = init.rpc_service {
            self.rpc_service = rpc_service;
        }
        if let Some(n) = init.last_scraped_block_number {
            self.last_scraped_block_number = n;
            self.last_observed_block_number = None;
        }
        if let Some(block_tag) = init.block_tag {
            self.block_tag = block_tag;
        }
        if let Some(nonce) = init.nonce {
            self.nonce = U256::from_u128(nonce);
        }
    }

    /// Queues a finalized log for application. A source already queued
    /// or already applied is refused, so a replayed log cannot reach the
    /// ledger again.
    pub fn record_log_to_process(&mut self, log_entry: &LogEntry) -> (r: Result<(), RecordError>)
        requires
            old(self).wf(),
            log_entry.has_source(),
        ensures
            final(self).wf(),
            final(self).last_scraped_block_number == old(self).last_scraped_block_number,
            final(self).last_observed_block_number == old(self).last_observed_block_number,
            final(self).last_processed_block_number == old(self).last_processed_block_number,
            final(self).processed_logs@ == old(self).processed_logs@,
            final(self).skipped_blocks@ == old(self).skipped_blocks@,
            final(self).nonce == old(self).nonce,
            match r {
                Ok(()) => {
                    &&& !contains_source(old(self).logs_to_process@, log_entry.spec_source())
                    &&& !contains_source(old(self).processed_logs@, log_entry.spec_source())
                    &&& final(self).logs_to_process@.len() == old(self).logs_to_process@.len() + 1
                    &&& final(self).logs_to_process@.take(
                        old(self).logs_to_process@.len() as int,
                    ) == old(self).logs_to_process@
                    &&& final(self).logs_to_process@.last().0@ == log_entry.spec_source()
                    &&& crate::chain_fusion::entry_like(
                        final(self).logs_to_process@.last().1,
                        *log_entry,
                    )
                },
                Err(RecordError::AlreadyPending) => {
                    &&& contains_source(old(self).logs_to_process@, log_entry.spec_source())
                    &&& final(self).logs_to_process@ == old(self).logs_to_process@
                },
                Err(RecordError::AlreadyProcessed) => {
                    &&& !contains_source(old(self).logs_to_process@, log_entry.spec_source())
                    &&& contains_source(old(self).processed_logs@, log_entry.spec_source())
                    &&& final(self).logs_to_process@ == old(self).logs_to_process@
                },
                Err(RecordError::AlreadySkipped) => false,
            },
    {
        let event_source = log_entry.source();
        if contains_log(&self.logs_to_process, &event_source) {
            return Err(RecordError::AlreadyPending);
        }
        if contains_log(&self.processed_logs, &event_source) {
            return Err(RecordError::AlreadyProcessed);
        }
        let ghost pre = self.logs_to_process@;
        self.logs_to_process.push((event_source, log_entry.duplicate()));
        proof {
            assert(pre =~= self.logs_to_process@.take(pre.len() as int));
            assert forall|i: int, j: int|
                0 <= i < j < self.logs_to_process@.len() implies (#[trigger] self.logs_to_process@[i]).0@
                != (#[trigger] self.logs_to_process@[j]).0@ by {
                if j == self.logs_to_process@.len() - 1 {
                    assert(self.logs_to_process@[i] == pre[i]);
                }
            }
        }
        Ok(())
    }

    /// Moves a queued source into the applied set; the caller must hand
    /// in a source that is queued and not yet applied.
    pub fn record_processed_log(&mut self, source: &LogSource)
        requires
            old(self).wf(),
            contains_source(old(self).logs_to_process@, source@),
        ensures
            final(self).wf(),
            final(self).last_scraped_block_number == old(self).last_scraped_block_number,
            final(self).last_observed_block_number == old(self).last_observed_block_number,
            final(self).last_processed_block_number == old(self).last_processed_block_number,
            final(self).skipped_blocks@ == old(self).skipped_blocks@,
            final(self).nonce == old(self).nonce,
            !contains_source(final(self).logs_to_process@, source@),
            contains_source(final(self).processed_logs@, source@),
            exists|i: int|
                0 <= i < old(self).logs_to_process@.len() && (#[trigger] old(self).logs_to_process@[i]).0@ == source@ && final(self).logs_to_process@ == old(self).logs_to_process@.remove(i) && final(self).processed_logs@ == old(self).processed_logs@.push(old(self).logs_to_process@[i]),
            forall|src: (Seq<char>, u64)|
                src != source@ ==> contains_source(final(self).logs_to_process@, src)
                    == contains_source(old(self).logs_to_process@, src),
            forall|src: (Seq<char>, u64)|
                src != source@ ==> contains_source(final(self).processed_logs@, src)
                    == contains_source(old(self).processed_logs@, src),
    {
        let idx = match find_log(&self.logs_to_process, source) {
            Some(i) => i,
            None => unreached(),
        };
        let ghost pre = self.logs_to_process@;
        let ghost prep = self.processed_logs@;
        let entry = self.logs_to_process.remove(idx);
        self.processed_logs.push(entry);
        proof {
            let gi = idx as int;
            assert(self.logs_to_process@ =~= pre.remove(gi));
            assert(self.processed_logs@ =~= prep.push(pre[gi]));
            assert(forall|x: int| 0 <= x < gi ==> pre.remove(gi)[x] == #[trigger] pre[x]);
            assert(forall|x: int|
                gi <= x < pre.len() - 1 ==> pre.remove(gi)[x] == #[trigger] pre[x + 1]);
            assert(!contains_source(self.logs_to_process@, source@));
            assert forall|src: (Seq<char>, u64)| src != source@ implies contains_source(
                self.logs_to_process@,
                src,
            ) == contains_source(pre, src) by {
                if contains_source(pre, src) {
                    let w = choose|w: int|
                        0 <= w < pre.len() && (#[trigger] pre[w]).0@ == src;
                    if w < gi {
                        assert(self.logs_to_process@[w].0@ == src);
                    } else {
                        assert(self.logs_to_process@[w - 1].0@ == src);
                    }
                }
                if contains_source(self.logs_to_process@, src) {
                    let w = choose|w: int|
                        0 <= w < self.logs_to_process@.len() && (#[trigger] self.logs_to_process@[w]).0@
                            == src;
                    if w < gi {
                        assert(pre[w].0@ == src);
                    } else {
                        assert(pre[w + 1].0@ == src);
                    }
                }
            }
            assert forall|src: (Seq<char>, u64)| src != source@ implies contains_source(
                self.processed_logs@,
                src,
            ) == contains_source(prep, src) by {
                if contains_source(prep, src) {
                    let w = choose|w: int|
                        0 <= w < prep.len() && (#[trigger] prep[w]).0@ == src;
                    assert(self.processed_logs@[w].0@ == src);
                }
                if contains_source(self.processed_logs@, src) {
                    let w = choose|w: int|
                        0 <= w < self.processed_logs@.len() && (#[trigger] self.processed_logs@[w]).0@
                            == src;
                    if w < prep.len() {
                        assert(prep[w].0@ == src);
                    }
                }
            }
            assert(contains_source(self.processed_logs@, source@)) by {
                assert(self.processed_logs@.last().0@ == source@);
            }
            assert forall|x: int| 0 <= x < self.logs_to_process@.len() implies (#[trigger] self.logs_to_process@[x]).1.has_source()
                && self.logs_to_process@[x].1.spec_source() == self.logs_to_process@[x].0@ by {
                if x < gi {
                    assert(self.logs_to_process@[x] == pre[x]);
                } else {
                    assert(self.logs_to_process@[x] == pre[x + 1]);
                }
            }
            assert forall|x: int, y: int| 0 <= x < y < self.logs_to_process@.len() implies (
            #[trigger] self.logs_to_process@[x]).0@ != (#[trigger] self.logs_to_process@[y]).0@ by {
                let px: int = if x < gi {
                    x
                } else {
                    x + 1
                };
                let py: int = if y < gi {
                    y
                } else {
                    y + 1
                };
                assert(self.logs_to_process@[x] == pre[px]);
                assert(self.logs_to_process@[y] == pre[py]);
            }
            assert(!contains_source(prep, source@)) by {
                assert(contains_source(pre, source@));
            }
            assert forall|x: int, y: int| 0 <= x < y < self.processed_logs@.len() implies (
            #[trigger] self.processed_logs@[x]).0@ != (#[trigger] self.processed_logs@[y]).0@ by {
                if y == self.processed_logs@.len() - 1 {
                    assert(self.processed_logs@[x] == prep[x]);
                    if prep[x].0@ == source@ {
                        assert(contains_source(prep, source@));
                    }
                } else {
                    assert(self.processed_logs@[x] == prep[x]);
                    assert(self.processed_logs@[y] == prep[y]);
                }
            }
            assert forall|src: (Seq<char>, u64)| contains_source(
                self.logs_to_process@,
                src,
            ) implies !contains_source(self.processed_logs@, src) by {
                if src == source@ {
                    assert(!contains_source(self.logs_to_process@, source@));
                } else {
                    assert(contains_source(pre, src));
                    assert(!contains_source(prep, src));
                }
            }
        }
    }

    /// Records a block whose logs exceed the provider limit even alone.
    pub fn record_skipped_block(&mut self, block_number: u64) -> (r: Result<(), RecordError>)
        requires
            old(self).wf(),
            block_number <= old(self).last_scraped_block_number,
        ensures
            final(self).wf(),
            final(self).last_scraped_block_number == old(self).last_scraped_block_number,
            final(self).last_observed_block_number == old(self).last_observed_block_number,
            final(self).last_processed_block_number == old(self).last_processed_block_number,
            final(self).logs_to_process@ == old(self).logs_to_process@,
            final(self).processed_logs@ == old(self).processed_logs@,
            final(self).nonce == old(self).nonce,
            match r {
                Ok(()) => {
                    &&& !contains_block(old(self).skipped_blocks@, block_number)
                    &&& final(self).skipped_blocks@ == old(self).skipped_blocks@.push(block_number)
                },
                Err(e) => {
                    &&& e == RecordError::AlreadySkipped
                    &&& contains_block(old(self).skipped_blocks@, block_number)
                    &&& final(self).skipped_blocks@ == old(self).skipped_blocks@
                },
            },
    {
        let mut i: usize = 0;
        let n = self.skipped_blocks.len();
        while i < n
            invariant
                i <= n,
                n == self.skipped_blocks@.len(),
                *self == *old(self),
                old(self).wf(),
                block_number <= old(self).last_scraped_block_number,
                forall|j: int| 0 <= j < i ==> self.skipped_blocks@[j] != block_number,
            decreases n - i,
        {
            if self.skipped_blocks[i] == block_number {
                return Err(RecordError::AlreadySkipped);
            }
            i += 1;
        }
        let ghost pre = self.skipped_blocks@;
        self.skipped_blocks.push(block_number);
        proof {
            assert(forall|x: int| 0 <= x < pre.len() ==> self.skipped_blocks@[x] == #[trigger] pre[x]);
        }
        Ok(())
    }

    /// Is any log waiting for application?
    pub fn has_logs_to_process(&self) -> (r: bool)
        ensures
            r == (self.logs_to_process@.len() > 0),
    {
        self.logs_to_process.len() > 0
    }
}

/// Raises the applied-blocks cursor to `n`, never past the scrape cursor
/// and never backwards.
impl Network {
    pub fn mark_processed_up_to(&mut self, n: u64)
        requires
            old(self).wf(),
            n <= old(self).last_scraped_block_number,
        ensures
            final(self).wf(),
            final(self).spec_last_processed() == if n > old(self).spec_last_processed() {
                n
            } else {
                old(self).spec_last_processed()
            },
            final(self).last_scraped_block_number == old(self).last_scraped_block_number,
            final(self).last_observed_block_number == old(self).last_observed_block_number,
            final(self).logs_to_process@ == old(self).logs_to_process@,
            final(self).processed_logs@ == old(self).processed_logs@,
            final(self).skipped_blocks@ == old(self).skipped_blocks@,
            final(self).nonce == old(self).nonce,
    {
        let cur = match self.last_processed_block_number {
            Some(c) => c,
            None => 0,
        };
        if n > cur {
            self.last_processed_block_number = Some(n);
        }
    }
}

/// The chain under `id`, matching from the newest entry.
pub open spec fn find_network(s: Seq<(u32, Network)>, id: u32) -> Option<Network>
    decreases s.len(),
{
    if s.len() == 0 {
        Option::None
    } else if s.last().0 == id {
        Option::Some(s.last().1)
    } else {
        find_network(s.drop_last(), id)
    }
}

pub open spec fn networks_wf(s: Seq<(u32, Network)>) -> bool {
    &&& forall|i: int, j: int|
        0 <= i < j < s.len() ==> (#[trigger] s[i]).0 != (#[trigger] s[j]).0
    &&& forall|i: int| 0 <= i < s.len() ==> (#[trigger] s[i]).1.wf()
}

pub proof fn lemma_fn_absent(s: Seq<(u32, Network)>, id: u32)
    requires
        forall|i: int| 0 <= i < s.len() ==> (#[trigger] s[i]).0 != id,
    ensures
        find_network(s, id) is None,
    decreases s.len(),
{
    if s.len() > 0 {
        assert(forall|i: int|
            0 <= i < s.len() - 1 ==> s.drop_last()[i] == #[trigger] s[i]);
        lemma_fn_absent(s.drop_last(), id);
    }
}

pub proof fn lemma_fn_at(s: Seq<(u32, Network)>, i: int)
    requires
        networks_wf(s),
        0 <= i < s.len(),
    ensures
        find_network(s, s[i].0) == Option::Some(s[i].1),
    decreases s.len(),
{
    if i < s.len() - 1 {
        assert(s.drop_last()[i] == s[i]);
        assert(networks_wf(s.drop_last())) by {
            assert(forall|x: int|
                0 <= x < s.len() - 1 ==> s.drop_last()[x] == #[trigger] s[x]);
        }
        lemma_fn_at(s.drop_last(), i);
    }
}

/// Replacing the chain at `i`, same id, moves only that chain's view.
/// Removing the chain at `i` drops exactly that chain's view.
pub proof fn lemma_fn_remove(s: Seq<(u32, Network)>, i: int, id: u32)
    requires
        networks_wf(s),
        0 <= i < s.len(),
    ensures
        networks_wf(s.remove(i)),
        find_network(s.remove(i), s[i].0) is None,
        id != s[i].0 ==> find_network(s.remove(i), id) == find_network(s, id),
    decreases s.len(),
{
    let t = s.remove(i);
    assert(forall|x: int| 0 <= x < i ==> t[x] == #[trigger] s[x]);
    assert(forall|x: int| i <= x < t.len() ==> t[x] == #[trigger] s[x + 1]);
    assert(networks_wf(t));
    assert forall|x: int| 0 <= x < t.len() implies (#[trigger] t[x]).0 != s[i].0 by {}
    lemma_fn_absent(t, s[i].0);
    if id != s[i].0 {
        if find_network(s, id) is Some {
            let w = choose|w: int| 0 <= w < s.len() && (#[trigger] s[w]).0 == id;
            assert(exists|w: int| 0 <= w < s.len() && (#[trigger] s[w]).0 == id) by {
                lemma_fn_some_witness(s, id);
            }
        }
        lemma_fn_rel(s, t, i, id);
    }
}

/// A found chain has an index.
pub proof fn lemma_fn_some_witness(s: Seq<(u32, Network)>, id: u32)
    requires
        find_network(s, id) is Some,
    ensures
        exists|w: int| 0 <= w < s.len() && (#[trigger] s[w]).0 == id,
    decreases s.len(),
{
    if s.len() > 0 {
        if s.last().0 == id {
            assert(s[s.len() - 1].0 == id);
        } else {
            lemma_fn_some_witness(s.drop_last(), id);
            let w = choose|w: int|
                0 <= w < s.drop_last().len() && (#[trigger] s.drop_last()[w]).0 == id;
            assert(s[w].0 == id);
        }
    }
}

/// Removal leaves other chains' lookups alone.
proof fn lemma_fn_rel(s: Seq<(u32, Network)>, t: Seq<(u32, Network)>, i: int, id: u32)
    requires
        networks_wf(s),
        0 <= i < s.len(),
        t == s.remove(i),
        id != s[i].0,
    ensures
        find_network(t, id) == find_network(s, id),
{
    if find_network(s, id) is Some {
        lemma_fn_some_witness(s, id);
        let w = choose|w: int| 0 <= w < s.len() && (#[trigger] s[w]).0 == id;
        lemma_fn_at(s, w);
        assert(networks_wf(t)) by {
            assert(forall|x: int| 0 <= x < i ==> t[x] == #[trigger] s[x]);
            assert(forall|x: int| i <= x < t.len() ==> t[x] == #[trigger] s[x + 1]);
        }
        if w < i {
            assert(t[w] == s[w]);
            lemma_fn_at(t, w);
        } else {
            assert(t[w - 1] == s[w]);
            lemma_fn_at(t, w - 1);
        }
    } else {
        lemma_fn_absent_converse(s, id);
        assert forall|x: int| 0 <= x < t.len() implies (#[trigger] t[x]).0 != id by {
            if x < i {
                assert(t[x] == s[x]);
            } else {
                assert(t[x] == s[x + 1]);
            }
        }
        lemma_fn_absent(t, id);
    }
}

/// An absent chain has no index.
proof fn lemma_fn_absent_converse(s: Seq<(u32, Network)>, id: u32)
    requires
        find_network(s, id) is None,
    ensures
        forall|i: int| 0 <= i < s.len() ==> (#[trigger] s[i]).0 != id,
    decreases s.len(),
{
    if s.len() > 0 {
        lemma_fn_absent_converse(s.drop_last(), id);
        assert forall|i: int| 0 <= i < s.len() implies (#[trigger] s[i]).0 != id by {
            if i < s.len() - 1 {
                assert(s.drop_last()[i] == s[i]);
            }
        }
    }
}

pub proof fn lemma_fn_push(s: Seq<(u32, Network)>, id: u32, n: Network, q: u32)
    requires
        networks_wf(s),
        find_network(s, id) is None,
        n.wf(),
    ensures
        networks_wf(s.push((id, n))),
        find_network(s.push((id, n)), id) == Option::Some(n),
        q != id ==> find_network(s.push((id, n)), q) == find_network(s, q),
{
    let t = s.push((id, n));
    assert(forall|x: int| 0 <= x < s.len() ==> t[x] == #[trigger] s[x]);
    assert(t[s.len() as int] == (id, n));
    assert(t.last() == (id, n));
    assert(t.drop_last() =~= s);
    assert forall|i: int| 0 <= i < s.len() implies (#[trigger] s[i]).0 != id by {
        if s[i].0 == id {
            lemma_fn_at(s, i);
        }
    }
    assert(networks_wf(t));
}

/// The ECDSA key the signing oracle derives the engine's key from.
#[derive(Clone, Debug)]
pub struct EcdsaKeyId {
    pub name: String,
}

/// The whole engine state: owner, ledger, chains and scheduling tags.
pub struct State {
    pub owner: UserId,
    pub wallets: Wallets,
    pub networks: Vec<(u32, Network)>,
    pub active_tasks: Vec<TaskType>,
    pub ecdsa_pub_key: Option<Vec<u8>>,
    pub ecdsa_key_id: EcdsaKeyId,
    pub evm_address: Option<Address>,
}

/// Arguments the engine is initialised with.
#[derive(Debug)]
pub struct Init {
    pub environment: String,
    pub initial_owner: UserId,
    pub ecdsa_key_id: EcdsaKeyId,
    pub networks: Vec<(u32, NetworkInit)>,
}

impl State {
    pub open spec fn wf(&self) -> bool {
        &&& self.wallets.wf()
        &&& networks_wf(self.networks@)
    }

    pub open spec fn has_network(&self, id: u32) -> bool {
        find_network(self.networks@, id) is Some
    }

    pub open spec fn spec_network(&self, id: u32) -> Network {
        find_network(self.networks@, id)->0
    }

    /// Seeds the engine from its initial configuration: one chain per
    /// configured id, the first occurrence winning on a duplicate id, an
    /// empty ledger, no active tasks, and no key material yet.
    #[verifier::rlimit(50)]
    pub fn from_init(init: Init) -> (r: State)
        ensures
            r.wf(),
            r.owner@ == init.initial_owner@,
            r.active_tasks@.len() == 0,
            r.ecdsa_pub_key is None,
            r.evm_address is None,
            forall|u: Seq<u8>, k: crate::wallet::AssetKeyView| r.wallets.balance_of(u, k) == 0,
            forall|i: int|
                0 <= i < init.networks@.len() ==> r.has_network(
                    (#[trigger] init.networks@[i]).0,
                ),
            forall|q: u32|
                r.has_network(q) ==> exists|i: int|
                    0 <= i < init.networks@.len() && (#[trigger] init.networks@[i]).0 == q,
            forall|i: int|
                (0 <= i < init.networks@.len() && (forall|j: int|
                    0 <= j < i ==> (#[trigger] init.networks@[j]).0 != init.networks@[i].0))
                    ==> network_matches_init(
                    r.spec_network((#[trigger] init.networks@[i]).0),
                    init.networks@[i].1,
                ),
    {
        let ghost all = init.networks@;
        let mut state = State {
            owner: init.initial_owner,
            wallets: Wallets::new(),
            networks: Vec::new(),
            active_tasks: Vec::new(),
            ecdsa_pub_key: None,
            ecdsa_key_id: init.ecdsa_key_id,
            evm_address: None,
        };
        let mut rest = init.networks;
        let total = rest.len();
        proof {
            assert(all.len() == total);
        }
        let mut i: usize = 0;
        proof {
            assert(rest@ =~= all.skip(0));
        }
        while rest.len() > 0
            invariant
                state.wf(),
                state.owner@ == init.initial_owner@,
                state.active_tasks@.len() == 0,
                state.ecdsa_pub_key is None,
                state.evm_address is None,
                forall|u: Seq<u8>, k: crate::wallet::AssetKeyView|
                    state.wallets.balance_of(u, k) == 0,
                i <= all.len() <= usize::MAX,
                i + rest@.len() == all.len(),
                rest@ =~= all.skip(i as int),
                forall|x: int| 0 <= x < i ==> state.has_network((#[trigger] all[x]).0),
                forall|q: u32|
                    state.has_network(q) ==> exists|x: int|
                        0 <= x < i && (#[trigger] all[x]).0 == q,
                forall|x: int|
                    (0 <= x < i && (forall|j: int|
                        0 <= j < x ==> (#[trigger] all[j]).0 != all[x].0))
                        ==> network_matches_init(
                        state.spec_network((#[trigger] all[x]).0),
                        all[x].1,
                    ),
            decreases rest@.len(),
        {
            let entry = rest.remove(0);
            proof {
                assert(all.skip(i as int)[0] == all[i as int]);
                assert(rest@ =~= all.skip(i + 1)) by {
                    assert(all.skip(i as int).remove(0) =~= all.skip(i + 1));
                }
            }
            let id = entry.0;
            let already = match state.get_network(id) {
                Some(_) => true,
                None => false,
            };
            let ghost pre = state;
            if !already {
                let n = Network::from_init(entry.1);
                state.put_network(id, n);
            }
            proof {
                let gi = i as int;
                assert(all[gi].0 == id);
                assert forall|q: u32|
                    state.has_network(q) implies exists|x: int|
                    0 <= x < gi + 1 && (#[trigger] all[x]).0 == q by {
                    if q == id {
                        assert(all[gi].0 == q);
                    } else {
                        assert(find_network(state.networks@, q) == find_network(
                            pre.networks@,
                            q,
                        ));
                        assert(pre.has_network(q));
                        assert(exists|x: int| 0 <= x < gi && (#[trigger] all[x]).0 == q);
                        let x = choose|x: int| 0 <= x < gi && (#[trigger] all[x]).0 == q;
                        assert(all[x].0 == q);
                    }
                }
                assert forall|x: int|
                    (0 <= x < gi + 1 && (forall|j: int|
                        0 <= j < x ==> (#[trigger] all[j]).0 != all[x].0))
                        implies network_matches_init(
                        state.spec_network((#[trigger] all[x]).0),
                        all[x].1,
                    ) by {
                    if x == gi {
                        assert(!pre.has_network(id)) by {
                            if pre.has_network(id) {
                                let w = choose|w: int|
                                    0 <= w < gi && (#[trigger] all[w]).0 == id;
                            }
                        }
                    } else {
                        if all[x].0 != id {
                            assert(find_network(state.networks@, all[x].0) == find_network(
                                pre.networks@,
                                all[x].0,
                            ));
                        } else {
                            assert(all[x].0 == all[gi].0);
                        }
                    }
                }
            }
            i += 1;
        }
        proof {
            assert(all.skip(all.len() as int).len() == 0);
        }
        state
    }

    /// Marks a task kind active; fails, changing nothing, when the same
    /// kind is already running. This is the guard that keeps at most one
    /// scrape and one log processor alive.
    pub fn try_begin_task(&mut self, task: TaskType) -> (r: bool)
        ensures
            final(self).wallets == old(self).wallets,
            final(self).networks == old(self).networks,
            r == !old(self).active_tasks@.contains(task),
            r ==> final(self).active_tasks@ == old(self).active_tasks@.push(task),
            !r ==> final(self).active_tasks@ == old(self).active_tasks@,
            final(self).active_tasks@.contains(task),
    {
        let mut i: usize = 0;
        let m = self.active_tasks.len();
        while i < m
            invariant
                i <= m,
                m == self.active_tasks@.len(),
                *self == *old(self),
                forall|j: int| 0 <= j < i ==> self.active_tasks@[j] != task,
            decreases m - i,
        {
            if self.active_tasks[i] == task {
                proof {
                    assert(old(self).active_tasks@[i as int] == task);
                }
                return false;
            }
            i += 1;
        }
        proof {
            assert(!old(self).active_tasks@.contains(task));
        }
        self.active_tasks.push(task);
        proof {
            assert(self.active_tasks@.last() == task);
        }
        true
    }

    /// Clears a task kind; every exit path of a guarded stage ends here.
    /// Clears a task kind; every exit path of a guarded stage ends here.
    /// No other kind's membership moves.
    pub fn end_task(&mut self, task: TaskType)
        ensures
            final(self).wallets == old(self).wallets,
            final(self).networks == old(self).networks,
            !final(self).active_tasks@.contains(task),
            forall|t2: TaskType|
                t2 != task ==> final(self).active_tasks@.contains(t2) == old(
                    self,
                ).active_tasks@.contains(t2),
    {
        let mut out: Vec<TaskType> = Vec::new();
        let mut i: usize = 0;
        let m = self.active_tasks.len();
        while i < m
            invariant
                i <= m,
                m == self.active_tasks@.len(),
                *self == *old(self),
                forall|j: int| 0 <= j < out@.len() ==> #[trigger] out@[j] != task,
                forall|t2: TaskType|
                    t2 != task ==> out@.contains(t2) == old(self).active_tasks@.take(
                        i as int,
                    ).contains(t2),
            decreases m - i,
        {
            let t = self.active_tasks[i];
            let ghost pre_out = out@;
            if !(t == task) {
                out.push(t);
            }
            proof {
                let gi = i as int;
                let taken = old(self).active_tasks@.take(gi + 1);
                let prev = old(self).active_tasks@.take(gi);
                assert(taken.drop_last() =~= prev);
                assert(taken.last() == t);
                assert forall|t2: TaskType| t2 != task implies out@.contains(t2) == taken.contains(
                    t2,
                ) by {
                    if out@.contains(t2) {
                        let w = choose|w: int| 0 <= w < out@.len() && out@[w] == t2;
                        if w < pre_out.len() {
                            assert(pre_out[w] == t2);
                            assert(pre_out.contains(t2));
                            assert(prev.contains(t2));
                            let v = choose|v: int| 0 <= v < prev.len() && prev[v] == t2;
                            assert(taken[v] == t2);
                        } else {
                            assert(out@[w] == t);
                            assert(taken[gi] == t2);
                        }
                        assert(taken.contains(t2));
                    }
                    if taken.contains(t2) {
                        let w = choose|w: int| 0 <= w < taken.len() && taken[w] == t2;
                        if w < gi {
                            assert(prev[w] == t2);
                            assert(prev.contains(t2));
                            assert(pre_out.contains(t2));
                            let v = choose|v: int| 0 <= v < pre_out.len() && pre_out[v] == t2;
                            assert(pre_out[v] == t2);
                            assert(out@[v] == t2);
                        } else {
                            assert(t == t2);
                            assert(out@.len() == pre_out.len() + 1);
                            assert(out@[pre_out.len() as int] == t2);
                        }
                        assert(out@.contains(t2));
                    }
                }
            }
            i += 1;
        }
        proof {
            assert(old(self).active_tasks@.take(m as int) =~= old(self).active_tasks@);
        }
        self.active_tasks = out;
    }

    /// A shared view of one chain's state.
    pub fn get_network(&self, network_id: u32) -> (r: Option<&Network>)
        requires
            self.wf(),
        ensures
            match r {
                Some(n) => self.has_network(network_id) && *n == self.spec_network(network_id),
                None => !self.has_network(network_id),
            },
    {
        let mut i: usize = 0;
        let m = self.networks.len();
        while i < m
            invariant
                i <= m,
                m == self.networks@.len(),
                self.wf(),
                forall|j: int| 0 <= j < i ==> (#[trigger] self.networks@[j]).0 != network_id,
            decreases m - i,
        {
            if self.networks[i].0 == network_id {
                proof {
                    lemma_fn_at(self.networks@, i as int);
                }
                return Some(&self.networks[i].1);
            }
            i += 1;
        }
        proof {
            lemma_fn_absent(self.networks@, network_id);
        }
        None
    }

    /// Detaches one chain's state for exclusive work; `put_network`
    /// hands it back.
    pub fn take_network(&mut self, network_id: u32) -> (r: Network)
        requires
            old(self).wf(),
            old(self).has_network(network_id),
        ensures
            final(self).wf(),
            r == old(self).spec_network(network_id),
            r.wf(),
            !final(self).has_network(network_id),
            forall|q: u32|
                q != network_id ==> find_network(final(self).networks@, q) == find_network(
                    old(self).networks@,
                    q,
                ),
            final(self).wallets == old(self).wallets,
            final(self).owner == old(self).owner,
            final(self).active_tasks == old(self).active_tasks,
            final(self).evm_address == old(self).evm_address,
            final(self).ecdsa_pub_key == old(self).ecdsa_pub_key,
    {
        let mut i: usize = 0;
        let m = self.networks.len();
        while i < m
            invariant
                i <= m,
                m == self.networks@.len(),
                *self == *old(self),
                old(self).wf(),
                old(self).has_network(network_id),
                forall|j: int| 0 <= j < i ==> (#[trigger] self.networks@[j]).0 != network_id,
            decreases m - i,
        {
            if self.networks[i].0 == network_id {
                proof {
                    lemma_fn_at(self.networks@, i as int);
                    assert forall|q: u32| q != network_id implies find_network(
                        self.networks@.remove(i as int),
                        q,
                    ) == find_network(self.networks@, q) by {
                        lemma_fn_remove(self.networks@, i as int, q);
                    }
                    lemma_fn_remove(self.networks@, i as int, network_id);
                }
                let entry = self.networks.remove(i);
                return entry.1;
            }
            i += 1;
        }
        proof {
            lemma_fn_absent(self.networks@, network_id);
        }
        unreached()
    }

    /// Returns a chain's state taken with `take_network`.
    pub fn put_network(&mut self, network_id: u32, network: Network)
        requires
            old(self).wf(),
            !old(self).has_network(network_id),
            network.wf(),
        ensures
            final(self).wf(),
            final(self).has_network(network_id),
            final(self).spec_network(network_id) == network,
            forall|q: u32|
                q != network_id ==> find_network(final(self).networks@, q) == find_network(
                    old(self).networks@,
                    q,
                ),
            final(self).wallets == old(self).wallets,
            final(self).owner == old(self).owner,
            final(self).active_tasks == old(self).active_tasks,
            final(self).evm_address == old(self).evm_address,
            final(self).ecdsa_pub_key == old(self).ecdsa_pub_key,
    {
        proof {
            assert forall|q: u32| true implies find_network(
                self.networks@.push((network_id, network)),
                q,
            ) == (if q == network_id {
                Option::Some(network)
            } else {
                find_network(self.networks@, q)
            }) by {
                lemma_fn_push(self.networks@, network_id, network, q);
            }
            lemma_fn_push(self.networks@, network_id, network, network_id);
        }
        self.networks.push((network_id, network));
    }
}

/// A configured chain's state is well-formed.
pub proof fn lemma_network_wf(s: &State, id: u32)
    requires
        s.wf(),
        s.has_network(id),
    ensures
        s.spec_network(id).wf(),
{
    lemma_fn_some_witness(s.networks@, id);
    let w = choose|w: int| 0 <= w < s.networks@.len() && (#[trigger] s.networks@[w]).0 == id;
    lemma_fn_at(s.networks@, w);
}

/// Owner handover; the caller has checked the request comes from the
/// current owner.
pub fn set_owner(s: &mut State, new_owner: UserId)
    requires
        old(s).wf(),
    ensures
        final(s).wf(),
        final(s).owner@ == new_owner@,
        final(s).wallets == old(s).wallets,
        final(s).networks == old(s).networks,
{
    s.owner = new_owner;
}

pub fn get_owner(s: &State) -> (r: &UserId)
    ensures
        r@ == s.owner@,
{
    &s.owner
}

/// Creates or patches a chain's configuration. A fresh chain needs the
/// full set of fields; a patched scrape cursor is accepted only while
/// the chain has no recorded logs, so the cursor order survives.
pub fn set_network_config(s: &mut State, chain_id: u32, network_mut: NetworkMut) -> (r: Result<
    (),
    crate::chain_fusion::InvalidStateError,
>)
    requires
        old(s).wf(),
        old(s).has_network(chain_id) ==> (network_mut.last_scraped_block_number matches Some(c)
            ==> old(s).spec_network(chain_id).spec_last_processed() <= c && (forall|i: int|
            0 <= i < old(s).spec_network(chain_id).skipped_blocks@.len() ==> #[trigger] old(
                s,
            ).spec_network(chain_id).skipped_blocks@[i] <= c)),
    ensures
        final(s).wf(),
        final(s).wallets == old(s).wallets,
        match r {
            Ok(()) => {
                &&& final(s).has_network(chain_id)
                &&& forall|q: u32|
                    q != chain_id ==> find_network(final(s).networks@, q) == find_network(
                        old(s).networks@,
                        q,
                    )
                &&& ({
                    let n = final(s).spec_network(chain_id);
                    if old(s).has_network(chain_id) {
                        let o = old(s).spec_network(chain_id);
                        &&& n.last_scraped_block_number == match network_mut.last_scraped_block_number {
                            Some(v) => v,
                            None => o.last_scraped_block_number,
                        }
                        &&& n.last_observed_block_number == (
                        if network_mut.last_scraped_block_number is Some {
                            Option::<u64>::None
                        } else {
                            o.last_observed_block_number
                        })
                        &&& n.nonce.as_nat() == match network_mut.nonce {
                            Some(v) => v as nat,
                            None => o.nonce.as_nat(),
                        }
                        &&& n.block_tag == match network_mut.block_tag {
                            Some(t) => t,
                            None => o.block_tag,
                        }
                        &&& n.rpc_services == match network_mut.rpc_services {
                            Some(x) => x,
                            None => o.rpc_services,
                        }
                        &&& n.rpc_service == match network_mut.rpc_service {
                            Some(x) => x,
                            None => o.rpc_service,
                        }
                        &&& n.get_logs_address == o.get_logs_address
                        &&& n.logs_to_process@ == o.logs_to_process@
                        &&& n.processed_logs@ == o.processed_logs@
                        &&& n.skipped_blocks@ == o.skipped_blocks@
                        &&& n.last_processed_block_number == o.last_processed_block_number
                    } else {
                        &&& network_mut.is_complete()
                        &&& n.rpc_services == network_mut.rpc_services->0
                        &&& n.rpc_service == network_mut.rpc_service->0
                        &&& n.last_scraped_block_number
                            == network_mut.last_scraped_block_number->0
                        &&& n.get_logs_address@ == network_mut.get_logs_address->0@
                        &&& n.block_tag == network_mut.block_tag->0
                        &&& n.last_observed_block_number is None
                        &&& n.last_processed_block_number is None
                        &&& n.logs_to_process@.len() == 0
                        &&& n.processed_logs@.len() == 0
                        &&& n.skipped_blocks@.len() == 0
                        &&& n.nonce.as_nat() == 0
                    }
                })
            },
            Err(e) => {
                &&& !old(s).has_network(chain_id)
                &&& !network_mut.is_complete()
                &&& *final(s) == *old(s)
            },
        },
{
    let has = match s.get_network(chain_id) {
        Some(_) => true,
        None => false,
    };
    if has {
        let mut n = s.take_network(chain_id);
        n.mutate_with(network_mut);
        s.put_network(chain_id, n);
        Ok(())
    } else {
        match network_mut.into_init() {
            Some(init) => {
                let n = Network::from_init(init);
                s.put_network(chain_id, n);
                Ok(())
            },
            None => Err(
                crate::chain_fusion::InvalidStateError::InvalidEthereumContractAddress(
                    String::new(),
                ),
            ),
        }
    }
}

/// The engine's own EVM address, once the public key arrived.
pub fn get_ethereum_address(s: &State) -> (r: Address)
    requires
        s.evm_address is Some,
    ensures
        r@ == s.evm_address->0@,
{
    match &s.evm_address {
        Some(a) => *a,
        None => unreached(),
    }
}

/// The first watched contract address of a chain.
pub fn get_endpoint_address(s: &State, chain_id: u32) -> (r: Address)
    requires
        s.wf(),
        s.has_network(chain_id),
        s.spec_network(chain_id).get_logs_address@.len() > 0,
    ensures
        r@ == s.spec_network(chain_id).get_logs_address@[0]@,
{
    let n = match s.get_network(chain_id) {
        Some(n) => n,
        None => unreached(),
    };
    n.get_logs_address[0]
}

/// The scrape cursor of a chain.
pub fn get_last_scraped_block(s: &State, chain_id: u32) -> (r: u64)
    requires
        s.wf(),
        s.has_network(chain_id),
    ensures
        r == s.spec_network(chain_id).last_scraped_block_number,
{
    let n = match s.get_network(chain_id) {
        Some(n) => n,
        None => unreached(),
    };
    n.last_scraped_block_number
}

/// The applied-blocks cursor of a chain; zero before any block was
/// applied.
pub fn get_last_processed_block(s: &State, chain_id: u32) -> (r: u64)
    requires
        s.wf(),
        s.has_network(chain_id),
    ensures
        r == s.spec_network(chain_id).spec_last_processed(),
{
    let n = match s.get_network(chain_id) {
        Some(n) => n,
        None => unreached(),
    };
    match n.last_processed_block_number {
        Some(b) => b,
        None => 0,
    }
}

/// Finds a recorded log by source.
fn find_log(s: &Vec<(LogSource, LogEntry)>, src: &LogSource) -> (r: Option<usize>)
    ensures
        match r {
            Some(i) => i < s@.len() && s@[i as int].0@ == src@,
            None => !contains_source(s@, src@),
        },
{
    let mut i: usize = 0;
    let n = s.len();
    while i < n
        invariant
            i <= n,
            n == s@.len(),
            forall|j: int| 0 <= j < i ==> (#[trigger] s@[j]).0@ != src@,
        decreases n - i,
    {
        let hit = s[i].0.eq_source(src);
        if hit {
            return Some(i);
        }
        i += 1;
    }
    None
}

/// Is a source among the recorded logs?
fn contains_log(s: &Vec<(LogSource, LogEntry)>, src: &LogSource) -> (r: bool)
    ensures
        r == contains_source(s@, src@),
{
    match find_log(s, src) {
        Some(_) => true,
        None => false,
    }
}

} // verus!
