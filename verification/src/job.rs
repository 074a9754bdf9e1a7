//! Deposit events: decoding, encoding and application to the ledger.
//!
//! The first topic of a log identifies the event signature as the
//! Keccak-256 of the canonical text, hex-prefixed. The `bytes32` user
//! topic carries a 3-byte authority tag followed by the 29-byte user
//! identity. Decoding failures are tagged errors; such a log is dropped,
//! not applied and not retried.

use vstd::prelude::*;
use vstd::string::StrSliceExecFns;
use vstd::string::StringExecFns;
use crate::chain_fusion::{LogEntry, LogEntryView, LogSource};
use crate::hexs::{
    all_hex_digits, hex_char_val, hex_of_bytes, hex_seq_val, is_hex_digit,
};
use crate::types::{Address, UserId};
use crate::u256::{pow256, U256};
use crate::wallet::{AssetKey, AssetKeyView};

verus! {

/// Failure to read a log entry as a deposit event.
#[derive(Debug)]
pub enum ParseEventError {
    UnknownEventSignature(String),
    InvalidTopics,
    FailedToParseUint,
    FailedToParseAddress,
    FailedToParsePrincipal,
}

/// The mathematical reading of a parse failure.
pub enum ParseEventErrorView {
    UnknownEventSignature(Seq<char>),
    InvalidTopics,
    FailedToParseUint,
    FailedToParseAddress,
    FailedToParsePrincipal,
}

impl View for ParseEventError {
    type V = ParseEventErrorView;

    open spec fn view(&self) -> ParseEventErrorView {
        match self {
            ParseEventError::UnknownEventSignature(t) => ParseEventErrorView::UnknownEventSignature(
                t@,
            ),
            ParseEventError::InvalidTopics => ParseEventErrorView::InvalidTopics,
            ParseEventError::FailedToParseUint => ParseEventErrorView::FailedToParseUint,
            ParseEventError::FailedToParseAddress => ParseEventErrorView::FailedToParseAddress,
            ParseEventError::FailedToParsePrincipal => ParseEventErrorView::FailedToParsePrincipal,
        }
    }
}

/// A deposit of native currency.
#[derive(Clone, Debug)]
pub struct DepositEthEvent {
    pub sender: Address,
    pub recipient: UserId,
    pub amount: U256,
}

pub struct DepositEthEventView {
    pub sender: Seq<u8>,
    pub recipient: Seq<u8>,
    pub amount: nat,
}

impl View for DepositEthEvent {
    type V = DepositEthEventView;

    open spec fn view(&self) -> DepositEthEventView {
        DepositEthEventView { sender: self.sender@, recipient: self.recipient@, amount: self.amount.as_nat() }
    }
}

/// A deposit of an ERC-20 token.
#[derive(Clone, Debug)]
pub struct DepositErc20Event {
    pub sender: Address,
    pub recipient: UserId,
    pub token: Address,
    pub amount: U256,
}

pub struct DepositErc20EventView {
    pub sender: Seq<u8>,
    pub recipient: Seq<u8>,
    pub token: Seq<u8>,
    pub amount: nat,
}

impl View for DepositErc20Event {
    type V = DepositErc20EventView;

    open spec fn view(&self) -> DepositErc20EventView {
        DepositErc20EventView {
            sender: self.sender@,
            recipient: self.recipient@,
            token: self.token@,
            amount: self.amount.as_nat(),
        }
    }
}

/// A decoded deposit event.
#[derive(Clone, Debug)]
pub enum Event {
    DepositEth(DepositEthEvent),
    DepositErc20(DepositErc20Event),
}

pub enum EventView {
    DepositEth(DepositEthEventView),
    DepositErc20(DepositErc20EventView),
}

impl View for Event {
    type V = EventView;

    open spec fn view(&self) -> EventView {
        match self {
            Event::DepositEth(e) => EventView::DepositEth(e@),
            Event::DepositErc20(e) => EventView::DepositErc20(e@),
        }
    }
}

/// The canonical signature texts.
pub open spec fn eth_sig_chars() -> Seq<char> {
    "DepositEth(address,bytes32,uint256)"@
}

pub open spec fn erc20_sig_chars() -> Seq<char> {
    "DepositErc20(address,bytes32,address,uint256)"@
}

/// The ASCII bytes of a known-ASCII text.
pub open spec fn ascii_bytes(s: Seq<char>) -> Seq<u8> {
    Seq::new(s.len(), |i: int| s[i] as u8)
}

/// The first topic of each event: `0x` and the hex of the signature's
/// Keccak-256 digest.
pub open spec fn eth_topic_chars() -> Seq<char> {
    seq!['0', 'x'] + hex_of_bytes(crate::ecdsa::keccak_of(ascii_bytes(eth_sig_chars())))
}

pub open spec fn erc20_topic_chars() -> Seq<char> {
    seq!['0', 'x'] + hex_of_bytes(crate::ecdsa::keccak_of(ascii_bytes(erc20_sig_chars())))
}

impl DepositEthEvent {
    /// The canonical Solidity signature.
    pub fn signature() -> (r: &'static str)
        ensures
            r@ == eth_sig_chars(),
    {
        "DepositEth(address,bytes32,uint256)"
    }

    /// The hex-prefixed Keccak-256 of the signature.
    pub fn topic() -> (r: String)
        ensures
            r@ == eth_topic_chars(),
    {
        proof {
            reveal_strlit("DepositEth(address,bytes32,uint256)");
        }
        topic_of_signature(Self::signature())
    }
}

impl DepositErc20Event {
    /// The canonical Solidity signature.
    pub fn signature() -> (r: &'static str)
        ensures
            r@ == erc20_sig_chars(),
    {
        "DepositErc20(address,bytes32,address,uint256)"
    }

    /// The hex-prefixed Keccak-256 of the signature.
    pub fn topic() -> (r: String)
        ensures
            r@ == erc20_topic_chars(),
    {
        proof {
            reveal_strlit("DepositErc20(address,bytes32,address,uint256)");
        }
        topic_of_signature(Self::signature())
    }
}

/// `0x` and the hex of the Keccak-256 digest of an ASCII signature.
fn topic_of_signature(sig: &str) -> (r: String)
    requires
        vstd::string::is_ascii(sig),
    ensures
        r@ == seq!['0', 'x'] + hex_of_bytes(crate::ecdsa::keccak_of(ascii_bytes(sig@))),
{
    proof {
        reveal_strlit("0x");
        vstd::string::is_ascii_spec_bytes(sig);
    }
    let bytes = sig.as_bytes();
    proof {
        assert(bytes@ =~= ascii_bytes(sig@));
    }
    let digest = crate::ecdsa::keccak256(bytes);
    let mut out = String::from_str("0x");
    crate::hexs::append_hex_of_bytes(&mut out, digest.as_slice());
    proof {
        assert("0x"@ =~= seq!['0', 'x']);
    }
    out
}

/// The address held in the trailing 40 hex digits of a 66-character
/// topic.
pub open spec fn spec_parse_address(t: Seq<char>) -> Result<Seq<u8>, ParseEventErrorView> {
    if t.len() != 66 {
        Result::Err(ParseEventErrorView::InvalidTopics)
    } else if !all_hex_digits(t.subrange(26, 66)) {
        Result::Err(ParseEventErrorView::FailedToParseAddress)
    } else {
        Result::Ok(
            Seq::new(20, |i: int| (hex_char_val(t[26 + 2 * i]) * 16 + hex_char_val(t[27 + 2 * i])) as u8),
        )
    }
}

/// The user identity in the trailing 29 bytes of a `bytes32` topic.
pub open spec fn spec_parse_principal(t: Seq<char>) -> Result<Seq<u8>, ParseEventErrorView> {
    if t.len() == 66 && all_hex_digits(t.subrange(2, 66)) {
        Result::Ok(
            Seq::new(29, |i: int| (hex_char_val(t[8 + 2 * i]) * 16 + hex_char_val(t[9 + 2 * i])) as u8),
        )
    } else {
        Result::Err(ParseEventErrorView::FailedToParsePrincipal)
    }
}

/// The value of the hex data field, with an optional `0x` prefix.
pub open spec fn spec_parse_amount(d: Seq<char>) -> Result<nat, ParseEventErrorView> {
    let rest = if d.len() >= 2 && d[0] == '0' && d[1] == 'x' {
        d.subrange(2, d.len() as int)
    } else {
        d
    };
    if rest.len() >= 1 && all_hex_digits(rest) && hex_seq_val(rest) < pow256() {
        Result::Ok(hex_seq_val(rest))
    } else {
        Result::Err(ParseEventErrorView::FailedToParseUint)
    }
}

/// Reads an address out of a log topic.
pub fn parse_address_from_topic(topic: &str) -> (r: Result<Address, ParseEventError>)
    ensures
        match r {
            Ok(a) => spec_parse_address(topic@) == Result::<Seq<u8>, ParseEventErrorView>::Ok(a@),
            Err(e) => spec_parse_address(topic@) == Result::<Seq<u8>, ParseEventErrorView>::Err(
                e@,
            ),
        },
{
    let n = topic.unicode_len();
    if n != 66 {
        return Err(ParseEventError::InvalidTopics);
    }
    match crate::hexs::parse_hex_bytes(topic, 26, 20) {
        Some(bytes) => {
            let a = bytes20_to_address(&bytes);
            proof {
                assert(a@ =~= spec_parse_address(topic@)->Ok_0);
            }
            Ok(a)
        },
        None => Err(ParseEventError::FailedToParseAddress),
    }
}

/// Reads a user identity out of a `bytes32` log topic.
pub fn parse_principal_from_topic(topic: &str) -> (r: Result<UserId, ParseEventError>)
    ensures
        match r {
            Ok(u) => spec_parse_principal(topic@) == Result::<Seq<u8>, ParseEventErrorView>::Ok(
                u@,
            ),
            Err(e) => spec_parse_principal(topic@) == Result::<
                Seq<u8>,
                ParseEventErrorView,
            >::Err(e@),
        },
{
    let n = topic.unicode_len();
    if n != 66 {
        return Err(ParseEventError::FailedToParsePrincipal);
    }
    match crate::hexs::parse_hex_bytes(topic, 2, 32) {
        Some(bytes) => {
            let mut out: Vec<u8> = Vec::new();
            let mut i: usize = 3;
            while i < 32
                invariant
                    3 <= i <= 32,
                    bytes@.len() == 32,
                    out@ =~= bytes@.subrange(3, i as int),
                decreases 32 - i,
            {
                out.push(bytes[i]);
                proof {
                    assert(out@ =~= bytes@.subrange(3, i + 1));
                }
                i += 1;
            }
            let u = UserId { bytes: out };
            proof {
                assert(u@ =~= spec_parse_principal(topic@)->Ok_0);
            }
            Ok(u)
        },
        None => Err(ParseEventError::FailedToParsePrincipal),
    }
}

/// Reads the amount out of the hex data field.
pub fn parse_amount(data: &str) -> (r: Result<U256, ParseEventError>)
    ensures
        match r {
            Ok(v) => spec_parse_amount(data@) == Result::<nat, ParseEventErrorView>::Ok(
                v.as_nat(),
            ),
            Err(e) => spec_parse_amount(data@) == Result::<nat, ParseEventErrorView>::Err(e@),
        },
{
    let n = data.unicode_len();
    let start: usize = if n >= 2 {
        let c0 = data.get_char(0);
        let c1 = data.get_char(1);
        if c0 == '0' && c1 == 'x' {
            2
        } else {
            0
        }
    } else {
        0
    };
    proof {
        if start == 2 {
            assert(data@.subrange(2, data@.len() as int) =~= data@.skip(2));
        } else {
            assert(data@ =~= data@.skip(0));
        }
    }
    match U256::parse_hex(data, start) {
        Some(v) => Ok(v),
        None => Err(ParseEventError::FailedToParseUint),
    }
}

/// Twenty parsed bytes as an address.
fn bytes20_to_address(v: &Vec<u8>) -> (r: Address)
    requires
        v@.len() == 20,
    ensures
        r@ =~= v@,
{
    let bytes: [u8; 20] = [
        v[0], v[1], v[2], v[3], v[4], v[5], v[6], v[7], v[8], v[9], v[10], v[11], v[12], v[13],
        v[14], v[15], v[16], v[17], v[18], v[19],
    ];
    let a = Address { bytes };
    proof {
        assert(a@ =~= v@);
    }
    a
}

/// The decoded reading of a log entry.
pub open spec fn spec_decode(v: LogEntryView) -> Result<EventView, ParseEventErrorView> {
    if v.topics.len() == 3 && v.topics[0] == eth_topic_chars() {
        match spec_parse_address(v.topics[1]) {
            Result::Ok(sender) => match spec_parse_principal(v.topics[2]) {
                Result::Ok(recipient) => match spec_parse_amount(v.data) {
                    Result::Ok(amount) => Result::Ok(
                        EventView::DepositEth(DepositEthEventView { sender, recipient, amount }),
                    ),
                    Result::Err(e) => Result::Err(e),
                },
                Result::Err(e) => Result::Err(e),
            },
            Result::Err(e) => Result::Err(e),
        }
    } else if v.topics.len() == 4 && v.topics[0] == erc20_topic_chars() {
        match spec_parse_address(v.topics[1]) {
            Result::Ok(sender) => match spec_parse_principal(v.topics[2]) {
                Result::Ok(recipient) => match spec_parse_address(v.topics[3]) {
                    Result::Ok(token) => match spec_parse_amount(v.data) {
                        Result::Ok(amount) => Result::Ok(
                            EventView::DepositErc20(
                                DepositErc20EventView { sender, recipient, token, amount },
                            ),
                        ),
                        Result::Err(e) => Result::Err(e),
                    },
                    Result::Err(e) => Result::Err(e),
                },
                Result::Err(e) => Result::Err(e),
            },
            Result::Err(e) => Result::Err(e),
        }
    } else if v.topics.len() >= 1 && (v.topics[0] == eth_topic_chars() || v.topics[0]
        == erc20_topic_chars()) {
        Result::Err(ParseEventErrorView::InvalidTopics)
    } else if v.topics.len() >= 1 {
        Result::Err(ParseEventErrorView::UnknownEventSignature(v.topics[0]))
    } else {
        Result::Err(ParseEventErrorView::InvalidTopics)
    }
}

impl Event {
    /// Decodes a log entry into a typed deposit event.
    pub fn from_log_entry(entry: &LogEntry) -> (r: Result<Event, ParseEventError>)
        ensures
            match r {
                Ok(ev) => spec_decode(entry@) == Result::<EventView, ParseEventErrorView>::Ok(
                    ev@,
                ),
                Err(e) => spec_decode(entry@) == Result::<EventView, ParseEventErrorView>::Err(
                    e@,
                ),
            },
    {
        let count = entry.topics.len();
        if count == 0 {
            return Err(ParseEventError::InvalidTopics);
        }
        let eth_topic = DepositEthEvent::topic();
        let erc20_topic = DepositErc20Event::topic();
        let is_eth = entry.topics[0] == eth_topic;
        let is_erc20 = entry.topics[0] == erc20_topic;
        proof {
            assert(entry@.topics[0] == entry.topics@[0]@);
        }
        if count == 3 && is_eth {
            let sender = match parse_address_from_topic(entry.topics[1].as_str()) {
                Ok(a) => a,
                Err(e) => {
                    return Err(e);
                },
            };
            let recipient = match parse_principal_from_topic(entry.topics[2].as_str()) {
                Ok(u) => u,
                Err(e) => {
                    return Err(e);
                },
            };
            let amount = match parse_amount(entry.data.as_str()) {
                Ok(v) => v,
                Err(e) => {
                    return Err(e);
                },
            };
            Ok(Event::DepositEth(DepositEthEvent { sender, recipient, amount }))
        } else if count == 4 && is_erc20 {
            let sender = match parse_address_from_topic(entry.topics[1].as_str()) {
                Ok(a) => a,
                Err(e) => {
                    return Err(e);
                },
            };
            let recipient = match parse_principal_from_topic(entry.topics[2].as_str()) {
                Ok(u) => u,
                Err(e) => {
                    return Err(e);
                },
            };
            let token = match parse_address_from_topic(entry.topics[3].as_str()) {
                Ok(a) => a,
                Err(e) => {
                    return Err(e);
                },
            };
            let amount = match parse_amount(entry.data.as_str()) {
                Ok(v) => v,
                Err(e) => {
                    return Err(e);
                },
            };
            Ok(Event::DepositErc20(DepositErc20Event { sender, recipient, token, amount }))
        } else if is_eth || is_erc20 {
            Err(ParseEventError::InvalidTopics)
        } else {
            let t0 = entry.topics[0].clone();
            Err(ParseEventError::UnknownEventSignature(t0))
        }
    }
}

/// Credits a native deposit to its recipient; an overflow leaves the
/// ledger unchanged and is only reported in the log.
pub fn handle_deposit_eth_event(
    s: &mut crate::state::State,
    network_id: u32,
    event: DepositEthEvent,
)
    requires
        old(s).wf(),
    ensures
        final(s).wf(),
        final(s).networks == old(s).networks,
        ({
            let key = AssetKeyView::Eth { chain_id: network_id };
            let pre = old(s).wallets;
            let post = final(s).wallets;
            &&& if pre.balance_of(event.recipient@, key) + event.amount.as_nat() < pow256() {
                &&& post.balance_of(event.recipient@, key) == pre.balance_of(
                    event.recipient@,
                    key,
                ) + event.amount.as_nat()
                &&& forall|u: Seq<u8>, k: AssetKeyView|
                    !(u == event.recipient@ && k == key) ==> post.balance_of(u, k)
                        == pre.balance_of(u, k)
            } else {
                forall|u: Seq<u8>, k: AssetKeyView| post.balance_of(u, k) == pre.balance_of(u, k)
            }
        }),
{
    let key = AssetKey::Eth { chain_id: network_id };
    let res = s.wallets.credit(&event.recipient, &key, event.amount);
    match res {
        Ok(()) => {},
        Err(_) => {},
    }
}

/// Credits an ERC-20 deposit to its recipient; an overflow leaves the
/// ledger unchanged and is only reported in the log.
pub fn handle_deposit_erc20_event(
    s: &mut crate::state::State,
    network_id: u32,
    event: DepositErc20Event,
)
    requires
        old(s).wf(),
    ensures
        final(s).wf(),
        final(s).networks == old(s).networks,
        ({
            let key = AssetKeyView::Erc20 { chain_id: network_id, token: event.token@ };
            let pre = old(s).wallets;
            let post = final(s).wallets;
            &&& if pre.balance_of(event.recipient@, key) + event.amount.as_nat() < pow256() {
                &&& post.balance_of(event.recipient@, key) == pre.balance_of(
                    event.recipient@,
                    key,
                ) + event.amount.as_nat()
                &&& forall|u: Seq<u8>, k: AssetKeyView|
                    !(u == event.recipient@ && k == key) ==> post.balance_of(u, k)
                        == pre.balance_of(u, k)
            } else {
                forall|u: Seq<u8>, k: AssetKeyView| post.balance_of(u, k) == pre.balance_of(u, k)
            }
        }),
{
    let key = AssetKey::Erc20 { chain_id: network_id, token: event.token };
    let res = s.wallets.credit(&event.recipient, &key, event.amount);
    match res {
        Ok(()) => {},
        Err(_) => {},
    }
}

/// The ledger's change from applying one decoded log entry: a deposit
/// credits its recipient unless the sum would not fit; anything that
/// does not decode changes nothing.
pub open spec fn spec_apply_entry(
    m: Map<(Seq<u8>, AssetKeyView), nat>,
    chain: u32,
    e: LogEntryView,
) -> Map<(Seq<u8>, AssetKeyView), nat> {
    match spec_decode(e) {
        Result::Ok(EventView::DepositEth(ev)) => {
            let key = (ev.recipient, AssetKeyView::Eth { chain_id: chain });
            if m[key] + ev.amount < pow256() {
                m.insert(key, (m[key] + ev.amount) as nat)
            } else {
                m
            }
        },
        Result::Ok(EventView::DepositErc20(ev)) => {
            let key = (
                ev.recipient,
                AssetKeyView::Erc20 { chain_id: chain, token: ev.token },
            );
            if m[key] + ev.amount < pow256() {
                m.insert(key, (m[key] + ev.amount) as nat)
            } else {
                m
            }
        },
        Result::Err(_) => m,
    }
}

/// The ledger as a total map from user and key to amount.
pub open spec fn ledger_map(w: crate::wallet::Wallets) -> Map<(Seq<u8>, AssetKeyView), nat> {
    Map::new(|p: (Seq<u8>, AssetKeyView)| true, |p: (Seq<u8>, AssetKeyView)| w.balance_of(p.0, p.1))
}

/// Applies every entry of `logs` in order.
pub open spec fn spec_apply_entries(
    m: Map<(Seq<u8>, AssetKeyView), nat>,
    chain: u32,
    logs: Seq<LogEntryView>,
) -> Map<(Seq<u8>, AssetKeyView), nat>
    decreases logs.len(),
{
    if logs.len() == 0 {
        m
    } else {
        spec_apply_entries(spec_apply_entry(m, chain, logs[0]), chain, logs.subrange(1, logs.len() as int))
    }
}

/// Applies one recorded log to the ledger, exactly once: the source
/// moves to the applied set first, so the same source can never credit
/// the ledger twice; then the entry is decoded and, when it is a
/// deposit, credited.
pub fn handle_event(
    s: &mut crate::state::State,
    network_id: u32,
    event_source: &LogSource,
    event: &LogEntry,
)
    requires
        old(s).wf(),
        old(s).has_network(network_id),
        crate::state::contains_source(
            old(s).spec_network(network_id).logs_to_process@,
            event_source@,
        ),
    ensures
        final(s).wf(),
        final(s).has_network(network_id),
        ledger_map(final(s).wallets) =~= spec_apply_entry(
            ledger_map(old(s).wallets),
            network_id,
            event@,
        ),
        !crate::state::contains_source(
            final(s).spec_network(network_id).logs_to_process@,
            event_source@,
        ),
        crate::state::contains_source(
            final(s).spec_network(network_id).processed_logs@,
            event_source@,
        ),
        forall|src: (Seq<char>, u64)|
            src != event_source@ ==> crate::state::contains_source(
                final(s).spec_network(network_id).processed_logs@,
                src,
            ) == crate::state::contains_source(
                old(s).spec_network(network_id).processed_logs@,
                src,
            ),
        exists|i: int|
            0 <= i < old(s).spec_network(network_id).logs_to_process@.len() && (#[trigger] old(s).spec_network(network_id).logs_to_process@[i]).0@ == event_source@ && final(s).spec_network(network_id).logs_to_process@ == old(s).spec_network(
                network_id,
            ).logs_to_process@.remove(i),
        final(s).spec_network(network_id).last_scraped_block_number == old(s).spec_network(
            network_id,
        ).last_scraped_block_number,
        final(s).spec_network(network_id).last_observed_block_number == old(s).spec_network(
            network_id,
        ).last_observed_block_number,
        final(s).spec_network(network_id).last_processed_block_number == old(s).spec_network(
            network_id,
        ).last_processed_block_number,
        final(s).spec_network(network_id).skipped_blocks@ == old(s).spec_network(
            network_id,
        ).skipped_blocks@,
        final(s).spec_network(network_id).nonce == old(s).spec_network(network_id).nonce,
        forall|q: u32|
            q != network_id ==> crate::state::find_network(final(s).networks@, q)
                == crate::state::find_network(old(s).networks@, q),
    {
    let mut n = s.take_network(network_id);
    n.record_processed_log(event_source);
    s.put_network(network_id, n);
    let decoded = Event::from_log_entry(event);
    match decoded {
        Ok(Event::DepositEth(ev)) => {
            handle_deposit_eth_event(s, network_id, ev);
        },
        Ok(Event::DepositErc20(ev)) => {
            handle_deposit_erc20_event(s, network_id, ev);
        },
        Err(_) => {},
    }
}

/// Applies every queued log of a chain, in arrival order. Afterwards no
/// log waits, every formerly queued source is in the applied set, and
/// the ledger carries each decodable deposit exactly once.
pub fn process_logs(s: &mut crate::state::State, network_id: u32)
    requires
        old(s).wf(),
        old(s).has_network(network_id),
    ensures
        final(s).wf(),
        final(s).has_network(network_id),
        final(s).spec_network(network_id).logs_to_process@.len() == 0,
        ledger_map(final(s).wallets) =~= spec_apply_entries(
            ledger_map(old(s).wallets),
            network_id,
            Seq::new(
                old(s).spec_network(network_id).logs_to_process@.len(),
                |i: int| old(s).spec_network(network_id).logs_to_process@[i].1@,
            ),
        ),
        forall|src: (Seq<char>, u64)|
            crate::state::contains_source(old(s).spec_network(network_id).logs_to_process@, src)
                ==> crate::state::contains_source(
                final(s).spec_network(network_id).processed_logs@,
                src,
            ),
        final(s).spec_network(network_id).last_scraped_block_number == old(s).spec_network(
            network_id,
        ).last_scraped_block_number,
        final(s).spec_network(network_id).last_observed_block_number == old(s).spec_network(
            network_id,
        ).last_observed_block_number,
        final(s).spec_network(network_id).last_processed_block_number == old(s).spec_network(
            network_id,
        ).last_processed_block_number,
        final(s).spec_network(network_id).skipped_blocks@ == old(s).spec_network(
            network_id,
        ).skipped_blocks@,
        final(s).spec_network(network_id).nonce == old(s).spec_network(network_id).nonce,
        forall|q: u32|
            q != network_id ==> crate::state::find_network(final(s).networks@, q)
                == crate::state::find_network(old(s).networks@, q),
{
    let ghost entries = Seq::new(
        old(s).spec_network(network_id).logs_to_process@.len(),
        |i: int| old(s).spec_network(network_id).logs_to_process@[i].1@,
    );
    let ghost pend0 = old(s).spec_network(network_id).logs_to_process@;
    let ghost m0 = ledger_map(old(s).wallets);
    let total = {
        let n = match s.get_network(network_id) {
            Some(n) => n,
            None => unreached(),
        };
        n.logs_to_process.len()
    };
    let mut k: usize = 0;
    while k < total
        invariant
            s.wf(),
            s.has_network(network_id),
            k <= total,
            total == pend0.len(),
            entries.len() == pend0.len(),
            entries == Seq::new(pend0.len() as nat, |i: int| pend0[i].1@),
            s.spec_network(network_id).logs_to_process@ =~= pend0.subrange(
                k as int,
                pend0.len() as int,
            ),
            ledger_map(s.wallets) =~= spec_apply_entries(m0, network_id, entries.take(k as int)),
            forall|src: (Seq<char>, u64)|
                crate::state::contains_source(pend0.take(k as int), src)
                    ==> crate::state::contains_source(
                    s.spec_network(network_id).processed_logs@,
                    src,
                ),
            s.spec_network(network_id).last_scraped_block_number == old(s).spec_network(
                network_id,
            ).last_scraped_block_number,
            s.spec_network(network_id).last_observed_block_number == old(s).spec_network(
                network_id,
            ).last_observed_block_number,
            s.spec_network(network_id).last_processed_block_number == old(s).spec_network(
                network_id,
            ).last_processed_block_number,
            s.spec_network(network_id).skipped_blocks@ == old(s).spec_network(
                network_id,
            ).skipped_blocks@,
            s.spec_network(network_id).nonce == old(s).spec_network(network_id).nonce,
            forall|q: u32|
                q != network_id ==> crate::state::find_network(s.networks@, q)
                    == crate::state::find_network(old(s).networks@, q),
        decreases total - k,
    {
        let (source, entry) = {
            let n = match s.get_network(network_id) {
                Some(n) => n,
                None => unreached(),
            };
            let src = n.logs_to_process[0].0.clone_source();
            let ent = n.logs_to_process[0].1.duplicate();
            (src, ent)
        };
        proof {
            assert(s.spec_network(network_id).logs_to_process@[0].0@ == source@);
            assert(crate::state::contains_source(
                s.spec_network(network_id).logs_to_process@,
                source@,
            ));
            assert(entry@ == pend0[k as int].1@);
            assert(entries[k as int] == pend0[k as int].1@);
        }
        let ghost pre_pending = s.spec_network(network_id).logs_to_process@;
        proof {
            crate::state::lemma_network_wf(s, network_id);
        }
        let ghost pre_processed = s.spec_network(network_id).processed_logs@;
        handle_event(s, network_id, &source, &entry);
        proof {
            let gk = k as int;
            let i = choose|i: int|
                0 <= i < pre_pending.len() && (#[trigger] pre_pending[i]).0@ == source@ && s.spec_network(
                    network_id,
                ).logs_to_process@ == pre_pending.remove(i);
            assert(i == 0) by {
                if i != 0 {
                    assert(pre_pending[0].0@ == source@);
                    assert(pre_pending[i].0@ == source@);
                }
            }
            assert(s.spec_network(network_id).logs_to_process@ =~= pend0.subrange(
                gk + 1,
                pend0.len() as int,
            )) by {
                assert(pre_pending.remove(0) =~= pre_pending.subrange(
                    1,
                    pre_pending.len() as int,
                ));
            }
            assert(entries.take(gk + 1).drop_last() =~= entries.take(gk));
            assert(entries.take(gk + 1).last() == entries[gk]);
            lemma_apply_entries_snoc(m0, network_id, entries, gk);
            assert(ledger_map(s.wallets) =~= spec_apply_entries(
                m0,
                network_id,
                entries.take(gk + 1),
            ));
            assert forall|src: (Seq<char>, u64)|
                crate::state::contains_source(pend0.take(gk + 1), src) implies crate::state::contains_source(
                s.spec_network(network_id).processed_logs@,
                src,
            ) by {
                let w = choose|w: int|
                    0 <= w < pend0.take(gk + 1).len() && (#[trigger] pend0.take(gk + 1)[w]).0@
                        == src;
                if w < gk {
                    assert(crate::state::contains_source(pend0.take(gk), src));
                } else {
                    assert(pend0[gk].0@ == src);
                    assert(src == source@);
                }
            }
        }
        k += 1;
    }
    proof {
        assert(entries.take(pend0.len() as int) =~= entries);
        assert(pend0.take(pend0.len() as int) =~= pend0);
    }
}

/// Unfolding the entry fold at its last step.
proof fn lemma_apply_entries_snoc(
    m: Map<(Seq<u8>, AssetKeyView), nat>,
    chain: u32,
    logs: Seq<LogEntryView>,
    k: int,
)
    requires
        0 <= k < logs.len(),
    ensures
        spec_apply_entries(m, chain, logs.take(k + 1)) == spec_apply_entry(
            spec_apply_entries(m, chain, logs.take(k)),
            chain,
            logs[k],
        ),
    decreases k,
{
    if k == 0 {
        assert(logs.take(1)[0] == logs[0]);
        assert(logs.take(1).subrange(1, 1) =~= Seq::<LogEntryView>::empty());
        assert(logs.take(0) =~= Seq::<LogEntryView>::empty());
        assert(spec_apply_entries(m, chain, logs.take(1)) == spec_apply_entries(
            spec_apply_entry(m, chain, logs[0]),
            chain,
            logs.take(1).subrange(1, 1),
        ));
        assert(spec_apply_entries(spec_apply_entry(m, chain, logs[0]), chain, Seq::<LogEntryView>::empty())
            == spec_apply_entry(m, chain, logs[0]));
        assert(spec_apply_entries(m, chain, Seq::<LogEntryView>::empty()) == m);
    } else {
        let t1 = logs.take(k + 1);
        let t0 = logs.take(k);
        assert(t1[0] == logs[0]);
        assert(t0[0] == logs[0]);
        assert(t1.subrange(1, t1.len() as int) =~= logs.subrange(1, logs.len() as int).take(k));
        assert(t0.subrange(1, t0.len() as int) =~= logs.subrange(1, logs.len() as int).take(
            k - 1,
        ));
        lemma_apply_entries_snoc(
            spec_apply_entry(m, chain, logs[0]),
            chain,
            logs.subrange(1, logs.len() as int),
            k - 1,
        );
        assert(logs.subrange(1, logs.len() as int)[k - 1] == logs[k]);
        assert(spec_apply_entries(m, chain, t1) == spec_apply_entries(
            spec_apply_entry(m, chain, logs[0]),
            chain,
            t1.subrange(1, t1.len() as int),
        ));
        assert(spec_apply_entries(m, chain, t0) == spec_apply_entries(
            spec_apply_entry(m, chain, logs[0]),
            chain,
            t0.subrange(1, t0.len() as int),
        ));
    }
}

/// The topic text of a 20-byte address, left-padded to 32 bytes.
pub open spec fn spec_address_topic(b: Seq<u8>) -> Seq<char> {
    seq!['0', 'x'] + hex_of_bytes(Seq::new(12, |i: int| 0u8) + b)
}

/// The topic text of a user identity: a zero authority tag and the
/// 29 identity bytes, as one `bytes32`.
pub open spec fn spec_principal_topic(b: Seq<u8>) -> Seq<char> {
    seq!['0', 'x'] + hex_of_bytes(Seq::new(3, |i: int| 0u8) + b)
}

/// The data text of a deposited amount: 64 hex digits.
pub open spec fn spec_amount_data(n: nat) -> Seq<char> {
    seq!['0', 'x'] + hex_of_bytes(crate::hexs::be_bytes_of(n, 32))
}

/// `0x` and the hex text of `prefix_zeros` zero bytes followed by `b`.
fn padded_hex_topic(prefix_zeros: usize, b: &[u8]) -> (r: String)
    requires
        prefix_zeros + b@.len() <= 32,
    ensures
        r@ == seq!['0', 'x'] + hex_of_bytes(Seq::new(prefix_zeros as nat, |i: int| 0u8) + b@),
{
    proof {
        reveal_strlit("0x");
    }
    let mut bytes: Vec<u8> = Vec::new();
    let mut i: usize = 0;
    while i < prefix_zeros
        invariant
            i <= prefix_zeros,
            bytes@ =~= Seq::new(i as nat, |j: int| 0u8),
        decreases prefix_zeros - i,
    {
        bytes.push(0);
        proof {
            assert(bytes@ =~= Seq::new((i + 1) as nat, |j: int| 0u8));
        }
        i += 1;
    }
    let mut j: usize = 0;
    while j < b.len()
        invariant
            j <= b@.len(),
            bytes@ =~= Seq::new(prefix_zeros as nat, |x: int| 0u8) + b@.take(j as int),
        decreases b@.len() - j,
    {
        bytes.push(b[j]);
        proof {
            assert(bytes@ =~= Seq::new(prefix_zeros as nat, |x: int| 0u8) + b@.take(j + 1));
        }
        j += 1;
    }
    proof {
        assert(b@.take(b@.len() as int) =~= b@);
    }
    let mut out = String::from_str("0x");
    crate::hexs::append_hex_of_bytes(&mut out, bytes.as_slice());
    proof {
        assert("0x"@ =~= seq!['0', 'x']);
    }
    out
}

/// The wire text of an amount: `0x` and 64 hex digits.
pub fn amount_data(v: &U256) -> (r: String)
    ensures
        r@ == spec_amount_data(v.as_nat()),
{
    proof {
        reveal_strlit("0x");
    }
    let bytes = v.to_be_bytes();
    let mut out = String::from_str("0x");
    crate::hexs::append_hex_of_bytes(&mut out, bytes.as_slice());
    proof {
        assert("0x"@ =~= seq!['0', 'x']);
    }
    out
}

impl DepositEthEvent {
    /// The bit-exact log entry a chain emits for this deposit.
    pub fn encode(
        &self,
        endpoint: &Address,
        block_number: u64,
        transaction_hash: &str,
        log_index: u64,
    ) -> (r: LogEntry)
        requires
            self.recipient@.len() == 29,
        ensures
            r@.topics =~= seq![
                eth_topic_chars(),
                spec_address_topic(self@.sender),
                spec_principal_topic(self@.recipient),
            ],
            r@.data == spec_amount_data(self@.amount),
            r.block_number == Option::Some(block_number),
            r.has_source(),
            r.spec_source() == (transaction_hash@, log_index),
    {
        let mut topics: Vec<String> = Vec::new();
        topics.push(Self::topic());
        topics.push(padded_hex_topic(12, self.sender.bytes.as_slice()));
        topics.push(padded_hex_topic(3, self.recipient.bytes.as_slice()));
        LogEntry {
            address: crate::types::H160Ext::to_repr(endpoint),
            topics,
            data: amount_data(&self.amount),
            block_number: Some(block_number),
            transaction_hash: Some(String::from_str(transaction_hash)),
            log_index: Some(log_index),
        }
    }
}

impl DepositErc20Event {
    /// The bit-exact log entry a chain emits for this deposit.
    pub fn encode(
        &self,
        endpoint: &Address,
        block_number: u64,
        transaction_hash: &str,
        log_index: u64,
    ) -> (r: LogEntry)
        requires
            self.recipient@.len() == 29,
        ensures
            r@.topics =~= seq![
                erc20_topic_chars(),
                spec_address_topic(self@.sender),
                spec_principal_topic(self@.recipient),
                spec_address_topic(self@.token),
            ],
            r@.data == spec_amount_data(self@.amount),
            r.block_number == Option::Some(block_number),
            r.has_source(),
            r.spec_source() == (transaction_hash@, log_index),
    {
        let mut topics: Vec<String> = Vec::new();
        topics.push(Self::topic());
        topics.push(padded_hex_topic(12, self.sender.bytes.as_slice()));
        topics.push(padded_hex_topic(3, self.recipient.bytes.as_slice()));
        topics.push(padded_hex_topic(12, self.token.bytes.as_slice()));
        LogEntry {
            address: crate::types::H160Ext::to_repr(endpoint),
            topics,
            data: amount_data(&self.amount),
            block_number: Some(block_number),
            transaction_hash: Some(String::from_str(transaction_hash)),
            log_index: Some(log_index),
        }
    }
}

/// Reading a padded topic back yields the padded bytes' tail.
proof fn lemma_parse_padded_topic(zeros: int, b: Seq<u8>)
    requires
        zeros == 12 || zeros == 3,
        zeros + b.len() == 32,
    ensures
        ({
            let t = seq!['0', 'x'] + hex_of_bytes(Seq::new(zeros as nat, |i: int| 0u8) + b);
            &&& t.len() == 66
            &&& all_hex_digits(t.subrange(2, 66))
            &&& forall|i: int|
                0 <= i < b.len() ==> (hex_char_val(#[trigger] t[2 + 2 * (zeros + i)]) * 16
                    + hex_char_val(t[3 + 2 * (zeros + i)])) as u8 == b[i]
        }),
{
    let padded = Seq::new(zeros as nat, |i: int| 0u8) + b;
    let h = hex_of_bytes(padded);
    let t = seq!['0', 'x'] + h;
    crate::hexs::lemma_hex_of_bytes_val(padded);
    assert(t.len() == 66);
    assert forall|i: int| 0 <= i < 64 implies is_hex_digit(#[trigger] t.subrange(2, 66)[i]) by {
        assert(t.subrange(2, 66)[i] == h[i]);
    }
    assert forall|i: int| 0 <= i < b.len() implies (hex_char_val(
        #[trigger] t[2 + 2 * (zeros + i)],
    ) * 16 + hex_char_val(t[3 + 2 * (zeros + i)])) as u8 == b[i] by {
        crate::hexs::lemma_hex_of_bytes_index(padded, zeros + i);
        assert(t[2 + 2 * (zeros + i)] == h[2 * (zeros + i)]);
        assert(t[3 + 2 * (zeros + i)] == h[2 * (zeros + i) + 1]);
        assert(padded[zeros + i] == b[i]);
        crate::hexs::lemma_hex_digit_char_val((b[i] / 16) as nat);
        crate::hexs::lemma_hex_digit_char_val((b[i] % 16) as nat);
        assert((b[i] / 16) * 16 + b[i] % 16 == b[i]) by (nonlinear_arith) {}
    }
}

/// 256^32 is 2^256.
proof fn lemma_pow_256_32()
    ensures
        vstd::arithmetic::power::pow(256, 32) == pow256(),
{
    reveal_with_fuel(vstd::arithmetic::power::pow, 33);
}

/// Decoding an encoded native deposit yields the deposit back.
///
/// The engine's wire format round-trips: for every deposit event with a
/// 29-byte recipient, a log entry carrying the encoded topics and data
/// decodes to exactly that event.
pub proof fn lemma_decode_encoded_deposit_eth(ev: DepositEthEventView, entry: LogEntryView)
    requires
        ev.sender.len() == 20,
        ev.recipient.len() == 29,
        ev.amount < pow256(),
        entry.topics =~= seq![
            eth_topic_chars(),
            spec_address_topic(ev.sender),
            spec_principal_topic(ev.recipient),
        ],
        entry.data == spec_amount_data(ev.amount),
    ensures
        spec_decode(entry) == Result::<EventView, ParseEventErrorView>::Ok(
            EventView::DepositEth(ev),
        ),
{
    lemma_parse_sender(ev.sender);
    lemma_parse_recipient(ev.recipient);
    lemma_parse_encoded_amount(ev.amount);
    assert(spec_parse_address(entry.topics[1]) == Result::<Seq<u8>, ParseEventErrorView>::Ok(
        ev.sender,
    ));
    assert(spec_parse_principal(entry.topics[2]) == Result::<Seq<u8>, ParseEventErrorView>::Ok(
        ev.recipient,
    ));
    assert(spec_parse_amount(entry.data) == Result::<nat, ParseEventErrorView>::Ok(ev.amount));
    assert(spec_decode(entry) == Result::<EventView, ParseEventErrorView>::Ok(
        EventView::DepositEth(
            DepositEthEventView {
                sender: ev.sender,
                recipient: ev.recipient,
                amount: ev.amount,
            },
        ),
    ));
}

/// Decoding an encoded ERC-20 deposit yields the deposit back.
pub proof fn lemma_decode_encoded_deposit_erc20(ev: DepositErc20EventView, entry: LogEntryView)
    requires
        ev.sender.len() == 20,
        ev.recipient.len() == 29,
        ev.token.len() == 20,
        ev.amount < pow256(),
        entry.topics =~= seq![
            erc20_topic_chars(),
            spec_address_topic(ev.sender),
            spec_principal_topic(ev.recipient),
            spec_address_topic(ev.token),
        ],
        entry.data == spec_amount_data(ev.amount),
    ensures
        spec_decode(entry) == Result::<EventView, ParseEventErrorView>::Ok(
            EventView::DepositErc20(ev),
        ),
{
    lemma_parse_sender(ev.sender);
    lemma_parse_recipient(ev.recipient);
    lemma_parse_sender(ev.token);
    lemma_parse_encoded_amount(ev.amount);
    assert(spec_parse_address(entry.topics[1]) == Result::<Seq<u8>, ParseEventErrorView>::Ok(
        ev.sender,
    ));
    assert(spec_parse_principal(entry.topics[2]) == Result::<Seq<u8>, ParseEventErrorView>::Ok(
        ev.recipient,
    ));
    assert(spec_parse_address(entry.topics[3]) == Result::<Seq<u8>, ParseEventErrorView>::Ok(
        ev.token,
    ));
    assert(spec_parse_amount(entry.data) == Result::<nat, ParseEventErrorView>::Ok(ev.amount));
    assert(spec_decode(entry) == Result::<EventView, ParseEventErrorView>::Ok(
        EventView::DepositErc20(
            DepositErc20EventView {
                sender: ev.sender,
                recipient: ev.recipient,
                token: ev.token,
                amount: ev.amount,
            },
        ),
    ));
}

/// An address topic parses back to the address.
proof fn lemma_parse_sender(b: Seq<u8>)
    requires
        b.len() == 20,
    ensures
        spec_parse_address(spec_address_topic(b)) == Result::<Seq<u8>, ParseEventErrorView>::Ok(
            b,
        ),
{
    lemma_parse_padded_topic(12, b);
    let t = spec_address_topic(b);
    assert forall|i: int| 0 <= i < t.subrange(26, 66).len() implies is_hex_digit(
        #[trigger] t.subrange(26, 66)[i],
    ) by {
        assert(t.subrange(26, 66)[i] == t.subrange(2, 66)[i + 24]);
    }
    assert(all_hex_digits(t.subrange(26, 66)));
    let parsed = spec_parse_address(t)->Ok_0;
    assert forall|i: int| 0 <= i < 20 implies parsed[i] == b[i] by {
        assert(t[26 + 2 * i] == t[2 + 2 * (12 + i)]);
        assert(t[27 + 2 * i] == t[3 + 2 * (12 + i)]);
    }
    assert(parsed =~= b);
}

/// A principal topic parses back to the identity.
proof fn lemma_parse_recipient(b: Seq<u8>)
    requires
        b.len() == 29,
    ensures
        spec_parse_principal(spec_principal_topic(b)) == Result::<
            Seq<u8>,
            ParseEventErrorView,
        >::Ok(b),
{
    lemma_parse_padded_topic(3, b);
    let t = spec_principal_topic(b);
    let parsed = spec_parse_principal(t)->Ok_0;
    assert forall|i: int| 0 <= i < 29 implies parsed[i] == b[i] by {
        assert(t[8 + 2 * i] == t[2 + 2 * (3 + i)]);
        assert(t[9 + 2 * i] == t[3 + 2 * (3 + i)]);
    }
    assert(parsed =~= b);
}

/// The amount data parses back to the amount.
proof fn lemma_parse_encoded_amount(n: nat)
    requires
        n < pow256(),
    ensures
        spec_parse_amount(spec_amount_data(n)) == Result::<nat, ParseEventErrorView>::Ok(n),
{
    lemma_pow_256_32();
    crate::hexs::lemma_be_bytes_of_val(n, 32);
    let bytes = crate::hexs::be_bytes_of(n, 32);
    crate::hexs::lemma_hex_of_bytes_val(bytes);
    let d = spec_amount_data(n);
    assert(d[0] == '0' && d[1] == 'x');
    assert(d.subrange(2, d.len() as int) =~= hex_of_bytes(bytes));
    assert(hex_seq_val(hex_of_bytes(bytes)) == crate::hexs::be_bytes_val(bytes));
}

} // verus!
