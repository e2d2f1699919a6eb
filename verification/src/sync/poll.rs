//! One round with a peer: greeting, comparing tips, and deciding what to fetch.
use crate::chain::Block;
use crate::ids::{BlockHash, Height};
use crate::mempool::mempool::Mempool;
use crate::mempool::pool::Pool;
use crate::network::message::{
    mismatch, ChainParams, InventoryItem, NetworkMessage, PeerInfo, RejectReason, TipInfo,
};
use crate::sync::peer::{MAX_BLOCKS_PER_SYNC, MIN_BLOCKS_PER_SYNC};
use crate::transaction::SignedProtocolTransaction;
use crate::text::{hex_encode, hex_text};
use vstd::prelude::*;
use vstd::string::*;

verus! {

/// How a round with a peer ended.
#[derive(Clone, Copy, Debug, PartialEq, Eq, Structural)]
pub enum PeerPoll {
    /// There was nothing to fetch.
    Idle { remote_tip: Height },
    /// Blocks were fetched.
    Synced { remote_tip: Height, synced_blocks: usize },
}

/// The name of a reason.
pub open spec fn reason_text(reason: RejectReason) -> Seq<char> {
    match reason {
        RejectReason::ProtocolVersionMismatch => "ProtocolVersionMismatch"@,
        RejectReason::ChainMismatch => "ChainMismatch"@,
        RejectReason::NetworkMismatch => "NetworkMismatch"@,
        RejectReason::ConsensusMismatch => "ConsensusMismatch"@,
        RejectReason::InvalidMessage => "InvalidMessage"@,
    }
}

fn reason_name(reason: RejectReason) -> (r: &'static str)
    ensures
        r@ == reason_text(reason),
{
    match reason {
        RejectReason::ProtocolVersionMismatch => "ProtocolVersionMismatch",
        RejectReason::ChainMismatch => "ChainMismatch",
        RejectReason::NetworkMismatch => "NetworkMismatch",
        RejectReason::ConsensusMismatch => "ConsensusMismatch",
        RejectReason::InvalidMessage => "InvalidMessage",
    }
}

/// Why a greeting failed, in words; `None` if it succeeded.
pub open spec fn handshake_failure(reply: NetworkMessage, params: ChainParams) -> Option<Seq<char>> {
    match reply {
        NetworkMessage::VerAck(remote) => match mismatch(remote, params) {
            Some(reason) => Some(
                "peer returned incompatible version: "@ + reason_text(reason),
            ),
            None => None,
        },
        NetworkMessage::Reject { reason, message } => Some(
            "peer rejected handshake: "@ + reason_text(reason) + ": "@ + message@,
        ),
        _ => Some("peer returned unexpected handshake response"@),
    }
}

/// Judges the answer to a greeting.
pub fn check_handshake(reply: &NetworkMessage, params: &ChainParams) -> (r: Result<(), String>)
    ensures
        match r {
            Ok(_) => handshake_failure(*reply, *params) is None,
            Err(error) => handshake_failure(*reply, *params) == Some(error@),
        },
{
    match reply {
        NetworkMessage::VerAck(remote) => match remote.validate_compatibility(params) {
            Ok(_) => Ok(()),
            Err(reason) => {
                let mut text = String::from_str("peer returned incompatible version: ");
                text.append(reason_name(reason));
                Err(text)
            },
        },
        NetworkMessage::Reject { reason, message } => {
            let mut text = String::from_str("peer rejected handshake: ");
            text.append(reason_name(*reason));
            text.append(": ");
            text.append(message.as_str());
            Err(text)
        },
        _ => Err(String::from_str("peer returned unexpected handshake response")),
    }
}

/// The message that announces one's own public addresses after a greeting, if there are any.
pub fn announcement(public_addrs: &Vec<String>) -> (r: Option<NetworkMessage>)
    ensures
        if public_addrs@.len() == 0 {
            r is None
        } else {
            r matches Some(NetworkMessage::Peers(peers)) && peers@.len() == public_addrs@.len()
                && forall|i: int|
                0 <= i < peers@.len() ==> (#[trigger] peers@[i]).address@ == public_addrs@[i]@
        },
{
    if public_addrs.len() == 0 {
        return None;
    }
    let mut peers: Vec<PeerInfo> = Vec::new();
    let mut i: usize = 0;
    while i < public_addrs.len()
        invariant
            i <= public_addrs@.len(),
            peers@.len() == i,
            forall|j: int| 0 <= j < i ==> (#[trigger] peers@[j]).address@ == public_addrs@[j]@,
        decreases public_addrs@.len() - i,
    {
        peers.push(PeerInfo { address: public_addrs[i].clone() });
        i = i + 1;
    }
    Some(NetworkMessage::Peers(peers))
}

/// The height of a peer's tip, from its answer.
pub fn tip_from(reply: &NetworkMessage) -> (r: Result<Height, String>)
    ensures
        match *reply {
            NetworkMessage::Tip(tip) => r == Ok::<Height, String>(tip.height),
            _ => r is Err && r->Err_0@ == "peer returned unexpected tip response"@,
        },
{
    match reply {
        NetworkMessage::Tip(tip) => Ok(tip.height),
        _ => Err(String::from_str("peer returned unexpected tip response")),
    }
}

/// The peers that a peer knows, from its answer.
pub fn peers_from(reply: NetworkMessage) -> (r: Result<Vec<PeerInfo>, String>)
    ensures
        match reply {
            NetworkMessage::Peers(peers) => r == Ok::<Vec<PeerInfo>, String>(peers),
            _ => r is Err && r->Err_0@ == "peer returned unexpected peers response"@,
        },
{
    match reply {
        NetworkMessage::Peers(peers) => Ok(peers),
        _ => Err(String::from_str("peer returned unexpected peers response")),
    }
}

/// The last common block, from a peer's answer.
pub fn ancestor_from(reply: &NetworkMessage) -> (r: Result<TipInfo, String>)
    ensures
        match *reply {
            NetworkMessage::CommonAncestor(Some(ancestor)) => r == Ok::<TipInfo, String>(ancestor),
            NetworkMessage::CommonAncestor(None) => r is Err && r->Err_0@
                == "peer did not find a common ancestor from local locator"@,
            _ => r is Err && r->Err_0@ == "peer returned unexpected common ancestor response"@,
        },
{
    match reply {
        NetworkMessage::CommonAncestor(Some(ancestor)) => Ok(*ancestor),
        NetworkMessage::CommonAncestor(None) => Err(
            String::from_str("peer did not find a common ancestor from local locator"),
        ),
        _ => Err(String::from_str("peer returned unexpected common ancestor response")),
    }
}

/// A block that was asked for by its hash, from a peer's answer.
pub fn block_from(reply: NetworkMessage, hash: &BlockHash) -> (r: Result<Block, String>)
    ensures
        match reply {
            NetworkMessage::Block(block) => r == Ok::<Block, String>(block),
            _ => r is Err && r->Err_0@ == "peer did not return block hash "@ + hex_text(hash.0@),
        },
{
    match reply {
        NetworkMessage::Block(block) => Ok(block),
        _ => {
            let mut text = String::from_str("peer did not return block hash ");
            text.append(hex_encode(hash.0.as_slice()).as_str());
            Err(text)
        },
    }
}

/// A stretch of heights to fetch.
#[derive(Clone, Copy, Debug, PartialEq, Eq, Structural)]
pub struct SyncPlan {
    pub start: Height,
    pub target: u64,
}

/// A window moved into its bounds.
pub open spec fn clamped_window(window: u64) -> int {
    if window < MIN_BLOCKS_PER_SYNC {
        MIN_BLOCKS_PER_SYNC as int
    } else if window > MAX_BLOCKS_PER_SYNC {
        MAX_BLOCKS_PER_SYNC as int
    } else {
        window as int
    }
}

/// The last height to fetch above an ancestor: the peer's tip, or the end of the window.
pub open spec fn fetch_target(tip: u64, ancestor: u64, window: u64) -> int {
    if ancestor + clamped_window(window) < tip {
        ancestor + clamped_window(window)
    } else {
        tip as int
    }
}

/// What to fetch above an ancestor, if anything.
pub open spec fn fetch_plan(tip: u64, ancestor: u64, window: u64) -> Option<SyncPlan> {
    if fetch_target(tip, ancestor, window) <= ancestor {
        None
    } else {
        Some(
            SyncPlan {
                start: Height((ancestor + 1) as u64),
                target: fetch_target(tip, ancestor, window) as u64,
            },
        )
    }
}

/// Decides what to fetch above the last common block.
pub fn plan_fetch(tip: Height, ancestor: Height, sync_window: u64) -> (r: Option<SyncPlan>)
    ensures
        r == fetch_plan(tip.0, ancestor.0, sync_window),
{
    let window: u64 = if sync_window < MIN_BLOCKS_PER_SYNC {
        MIN_BLOCKS_PER_SYNC
    } else if sync_window > MAX_BLOCKS_PER_SYNC {
        MAX_BLOCKS_PER_SYNC
    } else {
        sync_window
    };
    let end: u64 = ancestor.0.saturating_add(window);
    let target: u64 = if tip.0 < end {
        tip.0
    } else {
        end
    };
    if target <= ancestor.0 {
        return None;
    }
    Some(SyncPlan { start: Height(ancestor.0.saturating_add(1)), target })
}

/// A plan starts right above the ancestor, never reaches past the peer's tip, and is never longer
/// than the widest window.
pub proof fn plans_are_bounded(tip: u64, ancestor: u64, window: u64)
    ensures
        fetch_plan(tip, ancestor, window) is Some <==> ancestor < tip,
        fetch_plan(tip, ancestor, window) matches Some(plan) ==> {
            &&& plan.start.0 == ancestor + 1
            &&& plan.start.0 <= plan.target <= tip
            &&& plan.target - plan.start.0 + 1 <= MAX_BLOCKS_PER_SYNC
        },
{
}

/// What to do after a peer's tip is known.
#[derive(Clone, Copy, Debug, PartialEq, Eq, Structural)]
pub enum PollStep {
    /// The peer is not ahead: only ask for missing parents.
    AskForParents,
    /// The peer is ahead: look for the last common block.
    AskForAncestor,
}

/// Decides how to go on after a peer's tip is known.
pub fn poll_step(tip: Height, local_height: u64) -> (r: PollStep)
    ensures
        r == (if tip.0 <= local_height {
            PollStep::AskForParents
        } else {
            PollStep::AskForAncestor
        }),
{
    if tip.0 <= local_height {
        PollStep::AskForParents
    } else {
        PollStep::AskForAncestor
    }
}

/// How a round ends with a peer that is not ahead.
pub fn parents_outcome(tip: Height, requested: bool) -> (r: PeerPoll)
    ensures
        r == (if requested {
            PeerPoll::Synced { remote_tip: tip, synced_blocks: 0 }
        } else {
            PeerPoll::Idle { remote_tip: tip }
        }),
{
    if requested {
        PeerPoll::Synced { remote_tip: tip, synced_blocks: 0 }
    } else {
        PeerPoll::Idle { remote_tip: tip }
    }
}

/// How a round ends after the blocks of a plan were fetched.
pub fn fetched_outcome(tip: Height, plan: &SyncPlan) -> (r: PeerPoll)
    requires
        plan.start.0 <= plan.target,
        plan.target - plan.start.0 + 1 <= MAX_BLOCKS_PER_SYNC,
    ensures
        r == (PeerPoll::Synced {
            remote_tip: tip,
            synced_blocks: (plan.target - plan.start.0 + 1) as usize,
        }),
{
    PeerPoll::Synced {
        remote_tip: tip,
        synced_blocks: plan.target.saturating_sub(plan.start.0).saturating_add(1) as usize,
    }
}

/// An offered transaction that is not pending here.
pub open spec fn is_new_transaction(pool: Pool, item: InventoryItem) -> bool {
    match item {
        InventoryItem::Transaction(hash) => !pool.contains_key(hash),
        InventoryItem::Block(_) => false,
    }
}

/// The offered transactions that are not pending here, in order.
pub open spec fn new_transactions(pool: Pool, items: Seq<InventoryItem>) -> Seq<InventoryItem>
    decreases items.len(),
{
    if items.len() == 0 {
        Seq::empty()
    } else {
        let rest = new_transactions(pool, items.drop_last());
        if is_new_transaction(pool, items.last()) {
            rest.push(items.last())
        } else {
            rest
        }
    }
}

/// The request that follows a peer's answer about its mempool: `None` if nothing is new.
pub fn mempool_request(mempool: &Mempool, reply: NetworkMessage) -> (r: Result<
    Option<NetworkMessage>,
    String,
>)
    requires
        mempool.wf(),
    ensures
        match reply {
            NetworkMessage::Inventory(items) => {
                let wanted = new_transactions(mempool.pool(), items@);
                if wanted.len() == 0 {
                    r == Ok::<Option<NetworkMessage>, String>(None)
                } else {
                    r matches Ok(Some(NetworkMessage::GetData(list))) && list@ == wanted
                }
            },
            _ => r is Err && r->Err_0@ == "peer returned unexpected mempool inventory response"@,
        },
{
    let items = match reply {
        NetworkMessage::Inventory(items) => items,
        _ => {
            return Err(String::from_str("peer returned unexpected mempool inventory response"));
        },
    };
    let ghost pool = mempool.pool();
    let mut missing: Vec<InventoryItem> = Vec::new();
    let mut i: usize = 0;
    while i < items.len()
        invariant
            mempool.wf(),
            pool == mempool.pool(),
            i <= items@.len(),
            missing@ == new_transactions(pool, items@.take(i as int)),
        decreases items@.len() - i,
    {
        let item = items[i];
        assert(items@.take(i + 1).drop_last() =~= items@.take(i as int));
        match item {
            InventoryItem::Transaction(hash) => {
                if !mempool.contains(&hash) {
                    missing.push(item);
                }
            },
            InventoryItem::Block(_) => {},
        }
        i = i + 1;
    }
    assert(items@.take(i as int) =~= items@);
    if missing.len() == 0 {
        return Ok(None);
    }
    Ok(Some(NetworkMessage::GetData(missing)))
}

/// The transactions of a peer's mempool, from its answer.
pub fn mempool_data(reply: NetworkMessage) -> (r: Result<
    Vec<SignedProtocolTransaction>,
    String,
>)
    ensures
        match reply {
            NetworkMessage::Transactions(list) => r == Ok::<
                Vec<SignedProtocolTransaction>,
                String,
            >(list),
            _ => r is Err && r->Err_0@ == "peer returned unexpected mempool data response"@,
        },
{
    match reply {
        NetworkMessage::Transactions(list) => Ok(list),
        _ => Err(String::from_str("peer returned unexpected mempool data response")),
    }
}

} // verus!
