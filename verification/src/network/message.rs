//! The messages between peers.
use crate::chain::{Block, SealedHeader};
use crate::ids::{BlockHash, Height, TransactionHash};
use crate::transaction::SignedProtocolTransaction;
use vstd::prelude::*;

verus! {

/// The identity of a chain.
#[derive(Clone, Debug, PartialEq, Eq)]
pub struct ChainParams {
    pub protocol_version: u8,
    pub chain_id: u16,
    pub chain_name: String,
    pub protocol_stage: String,
    pub pow_algorithm: String,
    pub difficulty_algorithm: String,
    pub network_magic: [u8; 4],
}

/// The address of a peer as text.
#[derive(Clone, Debug, PartialEq, Eq)]
pub struct PeerInfo {
    pub address: String,
}

/// The tip of a chain.
#[derive(Clone, Copy, Debug, PartialEq, Eq)]
pub struct TipInfo {
    pub height: Height,
    pub hash: BlockHash,
}

/// What a peer says of itself.
#[derive(Clone, Debug, PartialEq, Eq)]
pub struct VersionInfo {
    pub protocol_version: u8,
    pub chain_id: u16,
    pub chain_name: String,
    pub protocol_stage: String,
    pub pow_algorithm: String,
    pub difficulty_algorithm: String,
    pub network_magic: [u8; 4],
    pub tip: Option<TipInfo>,
}

/// Why a peer is turned away.
#[derive(Clone, Copy, Debug, PartialEq, Eq, Structural)]
pub enum RejectReason {
    ProtocolVersionMismatch,
    ChainMismatch,
    NetworkMismatch,
    ConsensusMismatch,
    InvalidMessage,
}

/// Something that a peer has to offer.
#[derive(Clone, Copy, Debug, PartialEq, Eq)]
pub enum InventoryItem {
    Block(BlockHash),
    Transaction(TransactionHash),
}

/// A message between peers.
#[derive(Clone, Debug, PartialEq, Eq)]
pub enum NetworkMessage {
    Version(VersionInfo),
    VerAck(VersionInfo),
    Reject { reason: RejectReason, message: String },
    Ping { nonce: u64 },
    Pong { nonce: u64 },
    GetTip,
    Tip(TipInfo),
    GetBlockByHeight { height: Height },
    GetBlocksByHeightRange { start: Height, limit: u32 },
    GetBlockHeadersByHeightRange { start: Height, limit: u32 },
    GetCommonAncestor { locator: Vec<BlockHash> },
    CommonAncestor(Option<TipInfo>),
    GetBlockByHash { hash: BlockHash },
    Block(Block),
    Blocks(Vec<Block>),
    BlockHeaders(Vec<SealedHeader>),
    Inventory(Vec<InventoryItem>),
    GetData(Vec<InventoryItem>),
    Transaction(SignedProtocolTransaction),
    Transactions(Vec<SignedProtocolTransaction>),
    GetMempoolInventory,
    GetPeers,
    Peers(Vec<PeerInfo>),
}

/// The first respect in which a peer does not belong to a chain, if any.
pub open spec fn mismatch(version: VersionInfo, params: ChainParams) -> Option<RejectReason> {
    if version.network_magic@ != params.network_magic@ {
        Some(RejectReason::NetworkMismatch)
    } else if version.chain_id != params.chain_id || version.chain_name@ != params.chain_name@
        || version.protocol_stage@ != params.protocol_stage@ {
        Some(RejectReason::ChainMismatch)
    } else if version.protocol_version != params.protocol_version {
        Some(RejectReason::ProtocolVersionMismatch)
    } else if version.pow_algorithm@ != params.pow_algorithm@ || version.difficulty_algorithm@
        != params.difficulty_algorithm@ {
        Some(RejectReason::ConsensusMismatch)
    } else {
        None
    }
}

/// Whether two magic numbers are equal.
pub fn same_magic(a: &[u8; 4], b: &[u8; 4]) -> (r: bool)
    ensures
        r == (a@ == b@),
{
    let same = a[0] == b[0] && a[1] == b[1] && a[2] == b[2] && a[3] == b[3];
    assert(same ==> a@ =~= b@);
    same
}

impl VersionInfo {
    /// What a peer of a chain says of itself.
    pub fn local(params: &ChainParams, tip: Option<TipInfo>) -> (r: Self)
        ensures
            mismatch(r, *params) is None,
            r.tip == tip,
            r.network_magic == params.network_magic,
    {
        VersionInfo {
            protocol_version: params.protocol_version,
            chain_id: params.chain_id,
            chain_name: params.chain_name.clone(),
            protocol_stage: params.protocol_stage.clone(),
            pow_algorithm: params.pow_algorithm.clone(),
            difficulty_algorithm: params.difficulty_algorithm.clone(),
            network_magic: params.network_magic,
            tip,
        }
    }

    /// Whether a peer belongs to a chain.
    pub fn validate_compatibility(&self, params: &ChainParams) -> (r: Result<(), RejectReason>)
        ensures
            r == (match mismatch(*self, *params) {
                Some(reason) => Err::<(), RejectReason>(reason),
                None => Ok::<(), RejectReason>(()),
            }),
    {
        if !same_magic(&self.network_magic, &params.network_magic) {
            return Err(RejectReason::NetworkMismatch);
        }
        if self.chain_id != params.chain_id || self.chain_name != params.chain_name
            || self.protocol_stage != params.protocol_stage {
            return Err(RejectReason::ChainMismatch);
        }
        if self.protocol_version != params.protocol_version {
            return Err(RejectReason::ProtocolVersionMismatch);
        }
        if self.pow_algorithm != params.pow_algorithm || self.difficulty_algorithm
            != params.difficulty_algorithm {
            return Err(RejectReason::ConsensusMismatch);
        }
        Ok(())
    }
}

/// Two peers with the same parameters accept each other, and peers of different networks, chains,
/// versions or algorithms do not.
pub proof fn only_the_same_chain_is_compatible(version: VersionInfo, params: ChainParams)
    ensures
        mismatch(version, params) is None <==> {
            &&& version.protocol_version == params.protocol_version
            &&& version.chain_id == params.chain_id
            &&& version.chain_name@ == params.chain_name@
            &&& version.protocol_stage@ == params.protocol_stage@
            &&& version.pow_algorithm@ == params.pow_algorithm@
            &&& version.difficulty_algorithm@ == params.difficulty_algorithm@
            &&& version.network_magic@ == params.network_magic@
        },
{
}

} // verus!
