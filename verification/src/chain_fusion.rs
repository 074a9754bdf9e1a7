//! Shared chain-facing types: log identities, provider selection and the
//! task tags that serialise the scraping pipeline.

use vstd::prelude::*;

verus! {

/// How often the scheduler runs a scrape of every configured chain.
pub const SCRAPING_LOGS_INTERVAL_SECS: u64 = 30;

/// A unique identifier of an event source: the transaction hash and the
/// index of the log entry within it.
#[derive(Clone, Debug)]
pub struct LogSource {
    pub transaction_hash: String,
    pub log_index: u64,
}

impl View for LogSource {
    type V = (Seq<char>, u64);

    open spec fn view(&self) -> (Seq<char>, u64) {
        (self.transaction_hash@, self.log_index)
    }
}

impl LogSource {
    /// A copy of this identity.
    pub fn clone_source(&self) -> (r: LogSource)
        ensures
            r@ == self@,
    {
        LogSource {
            transaction_hash: self.transaction_hash.clone(),
            log_index: self.log_index,
        }
    }

    pub fn eq_source(&self, other: &LogSource) -> (r: bool)
        ensures
            r == (self@ == other@),
    {
        let th = self.transaction_hash == other.transaction_hash;
        th && self.log_index == other.log_index
    }
}

/// One log entry as the RPC adapter hands it over: hex text throughout,
/// with block fields absent while the log is still pending.
#[derive(Debug)]
pub struct LogEntry {
    pub address: String,
    pub topics: Vec<String>,
    pub data: String,
    pub block_number: Option<u64>,
    pub transaction_hash: Option<String>,
    pub log_index: Option<u64>,
}

/// The mathematical reading of a log entry.
pub struct LogEntryView {
    pub address: Seq<char>,
    pub topics: Seq<Seq<char>>,
    pub data: Seq<char>,
    pub block_number: Option<u64>,
    pub transaction_hash: Option<Seq<char>>,
    pub log_index: Option<u64>,
}

impl View for LogEntry {
    type V = LogEntryView;

    open spec fn view(&self) -> LogEntryView {
        LogEntryView {
            address: self.address@,
            topics: Seq::new(self.topics@.len(), |i: int| self.topics@[i]@),
            data: self.data@,
            block_number: self.block_number,
            transaction_hash: match self.transaction_hash {
                Option::Some(h) => Option::Some(h@),
                Option::None => Option::None,
            },
            log_index: self.log_index,
        }
    }
}

/// The same log content: the mathematical readings agree.
pub open spec fn entry_like(a: LogEntry, b: LogEntry) -> bool {
    a@ == b@
}

impl LogEntry {
    /// A finalized log carries its source fields.
    pub open spec fn has_source(&self) -> bool {
        self.transaction_hash is Some && self.log_index is Some
    }

    pub open spec fn spec_source(&self) -> (Seq<char>, u64) {
        (self.transaction_hash->0@, self.log_index->0)
    }

    /// The identity of this log; only finalized logs have one.
    pub fn source(&self) -> (r: LogSource)
        requires
            self.has_source(),
        ensures
            r@ == self.spec_source(),
    {
        let th = match &self.transaction_hash {
            Some(h) => h.clone(),
            None => unreached(),
        };
        let li = match &self.log_index {
            Some(i) => *i,
            None => unreached(),
        };
        LogSource { transaction_hash: th, log_index: li }
    }

    /// A field-for-field copy.
    pub fn duplicate(&self) -> (r: LogEntry)
        ensures
            r@ == self@,
            entry_like(r, *self),
    {
        let mut topics: Vec<String> = Vec::new();
        let mut i: usize = 0;
        while i < self.topics.len()
            invariant
                i <= self.topics@.len(),
                topics@.len() == i,
                forall|j: int|
                    0 <= j < i ==> (#[trigger] topics@[j])@ == self.topics@[j]@,
            decreases self.topics@.len() - i,
        {
            topics.push(self.topics[i].clone());
            i += 1;
        }
        let transaction_hash = match &self.transaction_hash {
            Some(h) => Some(h.clone()),
            None => None,
        };
        let out = LogEntry {
            address: self.address.clone(),
            topics,
            data: self.data.clone(),
            block_number: self.block_number,
            transaction_hash,
            log_index: self.log_index,
        };
        proof {
            assert(out@.topics =~= self@.topics);
            assert(out@ =~= self@);
        }
        out
    }
}

/// The multi-provider selection the RPC adapter is driven with.
#[derive(Clone, Debug)]
pub enum RpcServices {
    EthSepolia,
    EthMainnet,
    Custom { chain_id: u64 },
}

/// One concrete provider endpoint, for single-provider calls.
#[derive(Clone, Debug)]
pub struct RpcService {
    pub url: String,
}

/// The finality tag a chain is scraped at.
#[derive(Clone, Copy, Debug, PartialEq, Eq, Structural)]
pub enum BlockTag {
    Latest,
    Finalized,
    Safe,
    Earliest,
    Pending,
    Number(u64),
}

/// Configuration that arrived in an unusable shape.
#[derive(Debug)]
pub enum InvalidStateError {
    InvalidEthereumContractAddress(String),
    InvalidTopic(String),
}

/// The pipeline stages that must not overlap with themselves.
#[derive(Clone, Copy, Debug, Hash, PartialEq, Eq, Structural)]
pub enum TaskType {
    ProcessLogs,
    ScrapeLogs,
}

} // verus!
