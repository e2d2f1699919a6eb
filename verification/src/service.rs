//! The decisions of a running node: when to do what, whom to tell, and what to report.
use crate::command::config::{ConfigModel, RunConfig};
use crate::command::display::{abbreviated, hash_text, short_hash};
use crate::ids::Address;
use crate::mempool::policy::MempoolConfig;
use crate::network::message::{InventoryItem, NetworkMessage, PeerInfo};
use crate::sync::peer::{dedupe_peers, deduped, SocketAddr};
use crate::text::{decimal, decimal_text, lists_texts, sorted_texts};
use crate::transaction::TransactionFamily;
use vstd::prelude::*;
use vstd::string::*;

verus! {

/// Failures in a row after which a peer is given up.
pub const MAX_PEER_FAILURES: u32 = 3;

/// Milliseconds after which an unchanged activity is noted again.
pub const ACTIVITY_LOG_INTERVAL_MS: u64 = 15_000;

/// Milliseconds between two status lines.
pub const STATUS_INTERVAL_MS: u64 = 30_000;

/// Most peers that the gateway is asked for at a time.
pub const MAX_GATEWAY_PEERS: usize = 32;

/// What a node is busy with.
#[derive(Clone, Copy, Debug, PartialEq, Eq, Structural)]
pub enum NodeActivity {
    Starting,
    WaitingForPeers,
    WaitingForTransactions,
    Mining,
    Syncing,
    ServingPeers,
}

/// What a node knows of itself when it says what it is busy with.
#[derive(Clone, Copy, Debug, PartialEq, Eq, Structural)]
pub struct NodeSituation {
    pub peer_count: usize,
    pub has_gateway: bool,
    pub pending_sync: bool,
    pub needs_handshake: bool,
    pub peer_ahead: bool,
    pub mining: bool,
    pub mempool_len: usize,
}

/// What a node in a situation is busy with.
pub open spec fn activity_in(s: NodeSituation) -> NodeActivity {
    if s.peer_count == 0 && s.has_gateway {
        NodeActivity::WaitingForPeers
    } else if s.pending_sync || s.needs_handshake || s.peer_ahead {
        NodeActivity::Syncing
    } else if s.mining && s.mempool_len == 0 {
        NodeActivity::WaitingForTransactions
    } else if s.mining {
        NodeActivity::Mining
    } else if s.peer_count > 0 {
        NodeActivity::Syncing
    } else {
        NodeActivity::ServingPeers
    }
}

/// What a node in a situation is busy with.
pub fn activity(s: &NodeSituation) -> (r: NodeActivity)
    ensures
        r == activity_in(*s),
{
    if s.peer_count == 0 && s.has_gateway {
        NodeActivity::WaitingForPeers
    } else if s.pending_sync || s.needs_handshake || s.peer_ahead {
        NodeActivity::Syncing
    } else if s.mining && s.mempool_len == 0 {
        NodeActivity::WaitingForTransactions
    } else if s.mining {
        NodeActivity::Mining
    } else if s.peer_count > 0 {
        NodeActivity::Syncing
    } else {
        NodeActivity::ServingPeers
    }
}

/// Why mining has to wait, if so.
pub open spec fn wait_reason_in(s: NodeSituation) -> Option<Seq<char>> {
    if s.pending_sync {
        Some("sync_pending"@)
    } else if s.needs_handshake {
        Some("handshake_pending"@)
    } else if s.peer_ahead {
        Some("peer_ahead"@)
    } else {
        None
    }
}

/// Why mining has to wait, if so.
pub fn mining_wait_reason(s: &NodeSituation) -> (r: Option<&'static str>)
    ensures
        match r {
            Some(reason) => wait_reason_in(*s) == Some(reason@),
            None => wait_reason_in(*s) is None,
        },
{
    if s.pending_sync {
        return Some("sync_pending");
    }
    if s.needs_handshake {
        return Some("handshake_pending");
    }
    if s.peer_ahead {
        return Some("peer_ahead");
    }
    None
}

/// A node that waits before mining is never said to be mining.
pub proof fn waiting_nodes_do_not_mine(s: NodeSituation)
    requires
        wait_reason_in(s) is Some,
    ensures
        activity_in(s) != NodeActivity::Mining,
        activity_in(s) != NodeActivity::WaitingForTransactions,
{
}

/// Whether mining waits for a first answer of a peer: peers or a gateway are configured.
pub fn requires_peer_sync(mine: bool, configured_peers: usize, has_gateway: bool) -> (r: bool)
    ensures
        r == (mine && (configured_peers > 0 || has_gateway)),
{
    mine && (configured_peers > 0 || has_gateway)
}

/// The time from one moment to another, zero if the other is not later.
pub open spec fn time_between(from: u64, to: u64) -> int {
    if from <= to {
        to - from
    } else {
        0
    }
}

/// What a node was last busy with, and when that was noted.
#[derive(Clone, Copy, Debug, PartialEq, Eq, Structural)]
pub struct ActivityLog {
    pub last_activity: NodeActivity,
    pub last_noted: u64,
}

impl ActivityLog {
    /// Notes what the node is busy with if that is new or was last noted long ago.
    pub fn note(&mut self, activity: NodeActivity, now: u64) -> (noted: bool)
        ensures
            noted == (activity != old(self).last_activity || time_between(
                old(self).last_noted,
                now,
            ) >= ACTIVITY_LOG_INTERVAL_MS),
            *final(self) == (if noted {
                ActivityLog { last_activity: activity, last_noted: now }
            } else {
                *old(self)
            }),
    {
        if activity == self.last_activity && now.saturating_sub(self.last_noted)
            < ACTIVITY_LOG_INTERVAL_MS {
            return false;
        }
        self.last_activity = activity;
        self.last_noted = now;
        true
    }
}

/// When things were last done, in milliseconds.
#[derive(Clone, Copy, Debug, PartialEq, Eq, Structural)]
pub struct ServiceClock {
    pub last_mine: u64,
    pub last_status: u64,
    pub last_gateway_heartbeat: u64,
}

/// What is due.
#[derive(Clone, Copy, Debug, PartialEq, Eq, Structural)]
pub struct DueWork {
    pub gateway: bool,
    pub mine: bool,
    pub status: bool,
}

/// Seconds as milliseconds, capped at the end of the clock.
pub open spec fn as_millis(secs: u64) -> int {
    if secs * 1_000 <= u64::MAX {
        secs * 1_000
    } else {
        u64::MAX as int
    }
}

fn millis(secs: u64) -> (r: u64)
    ensures
        r == as_millis(secs),
{
    match secs.checked_mul(1_000) {
        Some(ms) => ms,
        None => u64::MAX,
    }
}

impl ServiceClock {
    /// The clock of a node that starts: the gateway is due at once, as far as the clock reaches back.
    pub fn start(now: u64, gateway_heartbeat: u64) -> (r: Self)
        ensures
            r == (ServiceClock {
                last_mine: now,
                last_status: now,
                last_gateway_heartbeat: if as_millis(gateway_heartbeat) <= now {
                    (now - as_millis(gateway_heartbeat)) as u64
                } else {
                    now
                },
            }),
    {
        let interval: u64 = millis(gateway_heartbeat);
        ServiceClock {
            last_mine: now,
            last_status: now,
            last_gateway_heartbeat: if interval <= now {
                now - interval
            } else {
                now
            },
        }
    }

    /// Says what is due.
    pub fn due(&self, now: u64, config: &RunConfig) -> (r: DueWork)
        ensures
            r == (DueWork {
                gateway: time_between(self.last_gateway_heartbeat, now) >= as_millis(
                    config.gateway_heartbeat,
                ),
                mine: config.mine && time_between(self.last_mine, now) >= as_millis(
                    config.mine_interval,
                ),
                status: time_between(self.last_status, now) >= STATUS_INTERVAL_MS,
            }),
    {
        DueWork {
            gateway: now.saturating_sub(self.last_gateway_heartbeat) >= millis(
                config.gateway_heartbeat,
            ),
            mine: config.mine && now.saturating_sub(self.last_mine) >= millis(
                config.mine_interval,
            ),
            status: now.saturating_sub(self.last_status) >= STATUS_INTERVAL_MS,
        }
    }
}

/// Whether the node sleeps between two rounds: not while it searches without a limit.
pub fn sleeps_between_rounds(mine: bool, mine_attempts: u64) -> (r: bool)
    ensures
        r == (!mine || mine_attempts != 0),
{
    !mine || mine_attempts != 0
}

/// What stands against a start, in words; `None` if nothing does. `derived` is the address of the
/// miner's secret key, if there is one.
pub open spec fn preflight_failure(
    shutdown_file: Option<Seq<char>>,
    difficulty_error: Option<Seq<char>>,
    mine: bool,
    derived: Option<Address>,
    miner: Address,
    miner_text: Seq<char>,
) -> Option<Seq<char>> {
    match shutdown_file {
        Some(path) => Some(
            "shutdown file `"@ + path + "` exists; remove it before starting the node"@,
        ),
        None => match difficulty_error {
            Some(error) => Some("failed to calculate next difficulty: "@ + error),
            None => if mine && derived is Some && derived != Some(miner) {
                Some("miner secret key does not match miner address "@ + miner_text)
            } else {
                None
            },
        },
    }
}

/// Checks that nothing stands against a start: no shutdown file is there, the difficulty is known,
/// and the miner's key belongs to its address.
pub fn preflight(
    shutdown_file: Option<&str>,
    difficulty: &Result<u32, String>,
    mine: bool,
    derived: Option<Address>,
    miner: &Address,
    miner_text: &str,
) -> (r: Result<(), String>)
    ensures
        ({
            let failure = preflight_failure(
                match shutdown_file {
                    Some(path) => Some(path@),
                    None => None,
                },
                match *difficulty {
                    Ok(_) => None,
                    Err(error) => Some(error@),
                },
                mine,
                derived,
                *miner,
                miner_text@,
            );
            match r {
                Ok(_) => failure is None,
                Err(error) => failure == Some(error@),
            }
        }),
{
    match shutdown_file {
        Some(path) => {
            let mut text = String::from_str("shutdown file `");
            text.append(path);
            text.append("` exists; remove it before starting the node");
            return Err(text);
        },
        None => {},
    }
    match difficulty {
        Ok(_) => {},
        Err(error) => {
            let mut text = String::from_str("failed to calculate next difficulty: ");
            text.append(error.as_str());
            return Err(text);
        },
    }
    if mine {
        match derived {
            Some(address) => {
                if !address.same(miner) {
                    let mut text = String::from_str(
                        "miner secret key does not match miner address ",
                    );
                    text.append(miner_text);
                    return Err(text);
                }
            },
            None => {},
        }
    }
    Ok(())
}

/// A list cut to a length.
pub open spec fn cut_to(list: Seq<SocketAddr>, limit: usize) -> Seq<SocketAddr> {
    if list.len() > limit {
        list.take(limit as int)
    } else {
        list
    }
}

/// The configuration that a node starts with: peers of the peers file added, repetitions dropped, and
/// no more peers than the limit.
pub open spec fn startup_config(config: ConfigModel, loaded: Seq<SocketAddr>) -> ConfigModel {
    ConfigModel {
        peers: cut_to(deduped(config.peers + loaded), config.max_peers),
        listen_addrs: deduped(config.listen_addrs),
        public_addrs: deduped(config.public_addrs),
        ..config
    }
}

/// Makes a configuration ready to start with; a node without a listen address is refused.
pub fn prepare_startup(config: RunConfig, loaded_peers: Vec<SocketAddr>) -> (r: Result<
    RunConfig,
    String,
>)
    ensures
        match r {
            Ok(after) => config@.listen_addrs.len() > 0 && after@ == startup_config(
                config@,
                loaded_peers@,
            ),
            Err(error) => config@.listen_addrs.len() == 0 && error@
                == "at least one --listen address is required"@,
        },
{
    let ghost before = config@;
    let mut config = config;
    let mut loaded = loaded_peers;
    config.peers.append(&mut loaded);
    assert(config.peers@ =~= before.peers + loaded_peers@);
    dedupe_peers(&mut config.peers);
    if config.peers.len() > config.max_peers {
        config.peers.truncate(config.max_peers);
    }
    if config.listen_addrs.len() == 0 {
        return Err(String::from_str("at least one --listen address is required"));
    }
    dedupe_peers(&mut config.listen_addrs);
    dedupe_peers(&mut config.public_addrs);
    assert(config@ =~= startup_config(before, loaded_peers@));
    Ok(config)
}

/// The mempool of a configuration.
pub fn mempool_config(config: &RunConfig) -> (r: MempoolConfig)
    ensures
        r == (MempoolConfig {
            min_relay_fee: config.min_relay_fee,
            market_fee: config.market_fee,
            low_fee_ttl_secs: config.low_fee_expiry,
            transaction_ttl_secs: config.mempool_expiry,
            ..MempoolConfig::standard()
        }),
{
    let standard = MempoolConfig::default();
    MempoolConfig {
        max_transactions: standard.max_transactions,
        max_bytes: standard.max_bytes,
        min_relay_fee: config.min_relay_fee,
        market_fee: config.market_fee,
        low_fee_ttl_secs: config.low_fee_expiry,
        transaction_ttl_secs: config.mempool_expiry,
    }
}

/// The item under which a message is offered before it is sent, if it is.
pub open spec fn offered_item(message: NetworkMessage) -> Option<InventoryItem> {
    match message {
        NetworkMessage::Block(block) => Some(InventoryItem::Block(block.hash)),
        NetworkMessage::Transaction(transaction) => Some(
            InventoryItem::Transaction(transaction@.hash()),
        ),
        _ => None,
    }
}

/// The item under which a message is offered before it is sent: blocks and transactions are, other
/// messages are sent at once.
pub fn announced_item(message: &NetworkMessage) -> (r: Option<InventoryItem>)
    ensures
        r == offered_item(*message),
{
    match message {
        NetworkMessage::Block(block) => Some(InventoryItem::Block(block.hash)),
        NetworkMessage::Transaction(transaction) => Some(
            InventoryItem::Transaction(transaction.hash()),
        ),
        _ => None,
    }
}

fn same_item(a: &InventoryItem, b: &InventoryItem) -> (r: bool)
    ensures
        r == (*a == *b),
{
    match (a, b) {
        (InventoryItem::Block(x), InventoryItem::Block(y)) => x.same(y),
        (InventoryItem::Transaction(x), InventoryItem::Transaction(y)) => x.same(y),
        _ => false,
    }
}

/// Whether a peer asks for an item that was offered to it.
pub fn wants_item(reply: &NetworkMessage, item: &InventoryItem) -> (r: bool)
    ensures
        r == (match *reply {
            NetworkMessage::GetData(items) => items@.contains(*item),
            _ => false,
        }),
{
    match reply {
        NetworkMessage::GetData(items) => {
            let mut i: usize = 0;
            while i < items.len()
                invariant
                    i <= items@.len(),
                    *reply == NetworkMessage::GetData(*items),
                    forall|j: int| 0 <= j < i ==> items@[j] != *item,
                decreases items@.len() - i,
            {
                if same_item(&items[i], item) {
                    assert(items@[i as int] == *item);
                    return true;
                }
                i = i + 1;
            }
            false
        },
        _ => false,
    }
}

/// The name of a family.
pub open spec fn family_text(family: TransactionFamily) -> Seq<char> {
    match family {
        TransactionFamily::Transfer => "Transfer"@,
        TransactionFamily::QCash => "QCash"@,
    }
}

/// The line that reports a message of a peer; blocks and transactions are reported.
pub open spec fn inbound_log_text(message: NetworkMessage, peer: Seq<char>) -> Option<Seq<char>> {
    match message {
        NetworkMessage::Block(block) => Some(
            "received block height "@ + decimal_text(block.header.height.0 as nat) + " from "@
                + peer + " |hash::"@ + abbreviated(hash_text(Some(block.hash.0))) + "|txs::"@
                + decimal_text(block.transactions@.len()) + "|"@,
        ),
        NetworkMessage::Transaction(transaction) => Some(
            "received tx:: |peer::"@ + peer + "|family::"@ + family_text(transaction@.family())
                + "|hash::"@ + abbreviated(hash_text(Some(transaction@.hash().0))) + "|fee::"@
                + decimal_text(transaction@.fee().0 as nat) + "|nonce::"@ + decimal_text(
                transaction@.nonce().0 as nat,
            ) + "|"@,
        ),
        _ => None,
    }
}

/// The line that reports a message of a peer, if it is a block or a transaction.
pub fn inbound_message_log(message: &NetworkMessage, peer: &str) -> (r: Option<String>)
    ensures
        match r {
            Some(line) => inbound_log_text(*message, peer@) == Some(line@),
            None => inbound_log_text(*message, peer@) is None,
        },
{
    match message {
        NetworkMessage::Block(block) => {
            let mut line = String::from_str("received block height ");
            line.append(decimal(block.header.height.0).as_str());
            line.append(" from ");
            line.append(peer);
            line.append(" |hash::");
            line.append(short_hash(Some(block.hash.0)).as_str());
            line.append("|txs::");
            line.append(decimal(block.transactions.len() as u64).as_str());
            line.append("|");
            Some(line)
        },
        NetworkMessage::Transaction(transaction) => {
            let mut line = String::from_str("received tx:: |peer::");
            line.append(peer);
            line.append("|family::");
            match transaction.family() {
                TransactionFamily::Transfer => {
                    line.append("Transfer");
                },
                TransactionFamily::QCash => {
                    line.append("QCash");
                },
            }
            line.append("|hash::");
            line.append(short_hash(Some(transaction.hash().0)).as_str());
            line.append("|fee::");
            line.append(decimal(transaction.fee().0).as_str());
            line.append("|nonce::");
            line.append(decimal(transaction.nonce().0).as_str());
            line.append("|");
            Some(line)
        },
        _ => None,
    }
}

/// What to do with a message of a peer.
#[derive(Clone, Debug, PartialEq, Eq)]
pub enum InboundStep {
    /// Tell of the peers that are known.
    TellPeers,
    /// Take peers over.
    LearnPeers(Vec<PeerInfo>),
    /// Let the node handle the message.
    Handle(NetworkMessage),
}

/// What to do with a message of a peer: those about peers need no node.
pub fn inbound_step(message: NetworkMessage) -> (r: InboundStep)
    ensures
        r == (match message {
            NetworkMessage::GetPeers => InboundStep::TellPeers,
            NetworkMessage::Peers(infos) => InboundStep::LearnPeers(infos),
            other => InboundStep::Handle(other),
        }),
{
    match message {
        NetworkMessage::GetPeers => InboundStep::TellPeers,
        NetworkMessage::Peers(infos) => InboundStep::LearnPeers(infos),
        other => InboundStep::Handle(other),
    }
}

/// What went wrong with a peer's stream.
#[derive(Clone, Copy, Debug, PartialEq, Eq, Structural)]
pub enum StreamFault {
    UnexpectedEof,
    WouldBlock,
    TimedOut,
    ConnectionReset,
    BrokenPipe,
    /// Another fault of the stream.
    OtherIo,
    /// The stream works, but what came over it is no message.
    BadMessage,
}

/// Whether a fault only means that the peer is gone.
pub fn is_peer_stream_closed(fault: StreamFault) -> (r: bool)
    ensures
        r == (fault != StreamFault::OtherIo && fault != StreamFault::BadMessage),
{
    match fault {
        StreamFault::UnexpectedEof => true,
        StreamFault::WouldBlock => true,
        StreamFault::TimedOut => true,
        StreamFault::ConnectionReset => true,
        StreamFault::BrokenPipe => true,
        StreamFault::OtherIo => false,
        StreamFault::BadMessage => false,
    }
}

/// The addresses that a node tells of: its peers and its own public ones, sorted, each once.
pub fn peer_infos(peers: &Vec<String>, public_addrs: &Vec<String>) -> (r: Vec<PeerInfo>)
    ensures
        exists|texts: Seq<String>| #[trigger]
            lists_texts(texts, peers@ + public_addrs@) && r@.len() == texts.len() && forall|i: int|
            0 <= i < r@.len() ==> (#[trigger] r@[i]).address == texts[i],
{
    let mut all: Vec<String> = Vec::new();
    let mut i: usize = 0;
    while i < peers.len()
        invariant
            i <= peers@.len(),
            all@ =~= peers@.take(i as int),
        decreases peers@.len() - i,
    {
        all.push(peers[i].clone());
        i = i + 1;
    }
    let mut j: usize = 0;
    while j < public_addrs.len()
        invariant
            j <= public_addrs@.len(),
            all@ =~= peers@ + public_addrs@.take(j as int),
        decreases public_addrs@.len() - j,
    {
        all.push(public_addrs[j].clone());
        j = j + 1;
    }
    assert(all@ =~= peers@ + public_addrs@);
    let texts = sorted_texts(all);
    let mut infos: Vec<PeerInfo> = Vec::new();
    let mut k: usize = 0;
    while k < texts.len()
        invariant
            k <= texts@.len(),
            infos@.len() == k,
            forall|m: int| 0 <= m < k ==> (#[trigger] infos@[m]).address == texts@[m],
        decreases texts@.len() - k,
    {
        infos.push(PeerInfo { address: texts[k].clone() });
        k = k + 1;
    }
    infos
}

/// What to tell the gateway and what to ask of it.
#[derive(Clone, Debug, PartialEq, Eq)]
pub struct GatewayRound {
    /// The addresses to announce.
    pub announce: Vec<SocketAddr>,
    /// Whether to warn that nothing can be announced.
    pub warn: bool,
    /// How many peers to ask for; zero means not to ask.
    pub ask_for: usize,
    /// The address to leave out of the answer.
    pub exclude: Option<SocketAddr>,
}

/// The number of peers to ask the gateway for: what is free, but no more than one answer holds.
pub open spec fn gateway_ask(max_peers: usize, known: usize) -> int {
    let free = if known <= max_peers {
        max_peers - known
    } else {
        0
    };
    if free < MAX_GATEWAY_PEERS {
        free
    } else {
        MAX_GATEWAY_PEERS as int
    }
}

/// The first of two lists that has an entry gives its first entry.
pub open spec fn first_of(a: Seq<SocketAddr>, b: Seq<SocketAddr>) -> Option<SocketAddr> {
    if a.len() > 0 {
        Some(a[0])
    } else if b.len() > 0 {
        Some(b[0])
    } else {
        None
    }
}

/// Plans a round with the gateway.
pub fn plan_gateway_round(
    public_addrs: &Vec<SocketAddr>,
    listen_addrs: &Vec<SocketAddr>,
    register: bool,
    max_peers: usize,
    known_peers: usize,
) -> (r: GatewayRound)
    ensures
        r.announce@ == public_addrs@,
        r.warn == (register && public_addrs@.len() == 0),
        r.ask_for == gateway_ask(max_peers, known_peers),
        r.exclude == first_of(public_addrs@, listen_addrs@),
{
    let free: usize = max_peers.saturating_sub(known_peers);
    GatewayRound {
        announce: crate::chain::copy_list(public_addrs),
        warn: register && public_addrs.len() == 0,
        ask_for: if free < MAX_GATEWAY_PEERS {
            free
        } else {
            MAX_GATEWAY_PEERS
        },
        exclude: if public_addrs.len() > 0 {
            Some(public_addrs[0])
        } else if listen_addrs.len() > 0 {
            Some(listen_addrs[0])
        } else {
            None
        },
    }
}

/// The address under which a node registers: a public one, the one it listens on, or its RPC address.
pub fn gateway_address(
    public_addrs: &Vec<SocketAddr>,
    bound: Option<SocketAddr>,
    rpc_addr: SocketAddr,
) -> (r: SocketAddr)
    ensures
        r == (if public_addrs@.len() > 0 {
            public_addrs@[0]
        } else {
            match bound {
                Some(addr) => addr,
                None => rpc_addr,
            }
        }),
{
    if public_addrs.len() > 0 {
        return public_addrs[0];
    }
    match bound {
        Some(addr) => addr,
        None => rpc_addr,
    }
}

/// Whether to warn that the RPC interface can be reached from outside.
pub fn rpc_is_public(rpc_addr: &SocketAddr) -> (r: bool)
    ensures
        r == !rpc_addr.loops_back(),
{
    !rpc_addr.is_loopback()
}

} // verus!
