//! The configuration of a run: defaults, then a file, then the command line.
use crate::ids::Address;
use crate::params::{
    DEFAULT_MARKET_FEE, DEFAULT_MIN_RELAY_FEE, LOW_FEE_EXPIRY_SECS, MEMPOOL_EXPIRY_SECS,
    MIN_RELAY_FEE_FLOOR,
};
use crate::sync::peer::{dedupe_keeps_each_once, dedupe_peers, deduped, SocketAddr};
use crate::text::{
    digits_value, parse_u64, same_text, spells_u64, starts_with_char, trim_text,
    trims_to, u64_parse_error, unsigned_part,
};
use vstd::prelude::*;
use vstd::string::*;

verus! {

/// Most peers of a node whose operator names no limit.
pub const DEFAULT_MAX_PEERS: usize = 128;

/// Seconds between two messages to the gateway.
pub const DEFAULT_GATEWAY_HEARTBEAT_SECS: u64 = 60;

/// Attempts of one mining batch.
pub const DEFAULT_MINE_ATTEMPTS: u64 = 100_000;

/// A text that is meant to be a socket address, with what came of reading it: the address, or what is
/// wrong with it.
#[derive(Debug, PartialEq, Eq)]
pub struct SocketText {
    pub text: String,
    pub parsed: Result<SocketAddr, String>,
}

/// One value or a list of values.
#[derive(Clone, Debug, PartialEq, Eq)]
pub enum OneOrMany<T> {
    One(T),
    Many(Vec<T>),
}

impl<T> OneOrMany<T> {
    /// The values.
    pub open spec fn items(self) -> Seq<T> {
        match self {
            OneOrMany::One(value) => seq![value],
            OneOrMany::Many(values) => values@,
        }
    }

    /// The values as a list.
    pub fn into_vec(self) -> (r: Vec<T>)
        ensures
            r@ == self.items(),
    {
        match self {
            OneOrMany::One(value) => {
                let mut list: Vec<T> = Vec::new();
                list.push(value);
                list
            },
            OneOrMany::Many(values) => values,
        }
    }
}

/// How a node runs. Times are in seconds.
#[derive(Clone, Debug, PartialEq, Eq)]
pub struct RunConfig {
    pub db_path: String,
    pub listen_addrs: Vec<SocketAddr>,
    pub rpc_addr: SocketAddr,
    pub peers: Vec<SocketAddr>,
    pub peers_file: Option<String>,
    pub gateway_url: Option<String>,
    pub public_addrs: Vec<SocketAddr>,
    pub gateway_heartbeat: u64,
    pub shutdown_file: String,
    pub max_peers: usize,
    pub min_relay_fee: u64,
    pub market_fee: u64,
    pub low_fee_expiry: u64,
    pub mempool_expiry: u64,
    pub miner_address: Address,
    pub miner_secret_key: Option<Vec<u8>>,
    pub miner_min_fee_rate: Option<u64>,
    pub mine: bool,
    pub mine_interval: u64,
    pub mine_attempts: u64,
}

/// A configuration as a mathematical value.
#[verifier::ext_equal]
pub struct ConfigModel {
    pub db_path: Seq<char>,
    pub listen_addrs: Seq<SocketAddr>,
    pub rpc_addr: SocketAddr,
    pub peers: Seq<SocketAddr>,
    pub peers_file: Option<Seq<char>>,
    pub gateway_url: Option<Seq<char>>,
    pub public_addrs: Seq<SocketAddr>,
    pub gateway_heartbeat: u64,
    pub shutdown_file: Seq<char>,
    pub max_peers: usize,
    pub min_relay_fee: u64,
    pub market_fee: u64,
    pub low_fee_expiry: u64,
    pub mempool_expiry: u64,
    pub miner_address: Address,
    pub miner_secret_key: Option<Seq<u8>>,
    pub miner_min_fee_rate: Option<u64>,
    pub mine: bool,
    pub mine_interval: u64,
    pub mine_attempts: u64,
}

/// The view of an optional text.
pub open spec fn text_of(text: Option<String>) -> Option<Seq<char>> {
    match text {
        Some(text) => Some(text@),
        None => None,
    }
}

/// The view of an optional key.
pub open spec fn key_of(key: Option<Vec<u8>>) -> Option<Seq<u8>> {
    match key {
        Some(key) => Some(key@),
        None => None,
    }
}

impl View for RunConfig {
    type V = ConfigModel;

    open spec fn view(&self) -> ConfigModel {
        ConfigModel {
            db_path: self.db_path@,
            listen_addrs: self.listen_addrs@,
            rpc_addr: self.rpc_addr,
            peers: self.peers@,
            peers_file: text_of(self.peers_file),
            gateway_url: text_of(self.gateway_url),
            public_addrs: self.public_addrs@,
            gateway_heartbeat: self.gateway_heartbeat,
            shutdown_file: self.shutdown_file@,
            max_peers: self.max_peers,
            min_relay_fee: self.min_relay_fee,
            market_fee: self.market_fee,
            low_fee_expiry: self.low_fee_expiry,
            mempool_expiry: self.mempool_expiry,
            miner_address: self.miner_address,
            miner_secret_key: key_of(self.miner_secret_key),
            miner_min_fee_rate: self.miner_min_fee_rate,
            mine: self.mine,
            mine_interval: self.mine_interval,
            mine_attempts: self.mine_attempts,
        }
    }
}

/// The address that blocks are mined for when no miner is named.
pub open spec fn placeholder_miner() -> Address {
    Address([9u8, 9u8, 9u8, 9u8, 9u8, 9u8, 9u8, 9u8, 9u8, 9u8, 9u8, 9u8, 9u8, 9u8, 9u8, 9u8, 9u8, 9u8, 9u8, 9u8])
}

/// The configuration of a node whose operator sets nothing.
pub open spec fn default_config() -> ConfigModel {
    ConfigModel {
        db_path: "./data/paqus"@,
        listen_addrs: seq![SocketAddr::V6 { ip: 0, port: 5555, flowinfo: 0, scope_id: 0 }],
        rpc_addr: SocketAddr::V4 { ip: 0x7f00_0001, port: 6666 },
        peers: Seq::empty(),
        peers_file: Some("./data/paqus/peers.json"@),
        gateway_url: None,
        public_addrs: Seq::empty(),
        gateway_heartbeat: DEFAULT_GATEWAY_HEARTBEAT_SECS,
        shutdown_file: "./data/paqus/STOP"@,
        max_peers: DEFAULT_MAX_PEERS,
        min_relay_fee: DEFAULT_MIN_RELAY_FEE,
        market_fee: DEFAULT_MARKET_FEE,
        low_fee_expiry: LOW_FEE_EXPIRY_SECS,
        mempool_expiry: MEMPOOL_EXPIRY_SECS,
        miner_address: placeholder_miner(),
        miner_secret_key: None,
        miner_min_fee_rate: None,
        mine: false,
        mine_interval: 0,
        mine_attempts: DEFAULT_MINE_ATTEMPTS,
    }
}

impl Default for RunConfig {
    fn default() -> (r: Self)
        ensures
            r@ == default_config(),
    {
        let mut listen_addrs: Vec<SocketAddr> = Vec::new();
        listen_addrs.push(SocketAddr::V6 { ip: 0, port: 5555, flowinfo: 0, scope_id: 0 });
        let r = RunConfig {
            db_path: String::from_str("./data/paqus"),
            listen_addrs,
            rpc_addr: SocketAddr::V4 { ip: 0x7f00_0001, port: 6666 },
            peers: Vec::new(),
            peers_file: Some(String::from_str("./data/paqus/peers.json")),
            gateway_url: None,
            public_addrs: Vec::new(),
            gateway_heartbeat: DEFAULT_GATEWAY_HEARTBEAT_SECS,
            shutdown_file: String::from_str("./data/paqus/STOP"),
            max_peers: DEFAULT_MAX_PEERS,
            min_relay_fee: DEFAULT_MIN_RELAY_FEE,
            market_fee: DEFAULT_MARKET_FEE,
            low_fee_expiry: LOW_FEE_EXPIRY_SECS,
            mempool_expiry: MEMPOOL_EXPIRY_SECS,
            miner_address: Address([9u8, 9u8, 9u8, 9u8, 9u8, 9u8, 9u8, 9u8, 9u8, 9u8, 9u8, 9u8, 9u8, 9u8, 9u8, 9u8, 9u8, 9u8, 9u8, 9u8]),
            miner_secret_key: None,
            miner_min_fee_rate: None,
            mine: false,
            mine_interval: 0,
            mine_attempts: DEFAULT_MINE_ATTEMPTS,
        };
        assert(r@ =~= default_config());
        r
    }
}

/// A configuration file. Texts that name an address, a key or a wallet come with what was read from
/// them.
#[derive(Debug, PartialEq, Eq)]
pub struct RunConfigFile {
    pub db_path: String,
    pub listen_addr: OneOrMany<SocketText>,
    pub rpc_addr: SocketText,
    pub peers: Vec<SocketText>,
    pub peers_file: Option<String>,
    pub gateway_url: Option<String>,
    pub public_addr: Option<OneOrMany<SocketText>>,
    pub gateway_heartbeat_secs: u64,
    pub shutdown_file: String,
    pub max_peers: usize,
    pub min_relay_fee: Option<u64>,
    pub market_fee: Option<u64>,
    pub low_fee_expiry_secs: Option<u64>,
    pub mempool_expiry_secs: Option<u64>,
    pub wallet: Option<Result<Address, String>>,
    pub miner_address: Option<Result<Address, String>>,
    pub miner_secret_key: Option<Result<Vec<u8>, String>>,
    pub miner_min_fee_rate: Option<u64>,
    pub mine: bool,
    pub mine_interval_secs: u64,
    pub mine_attempts: u64,
}

/// At least one.
pub open spec fn at_least_one(n: u64) -> u64 {
    if n < 1 {
        1
    } else {
        n
    }
}

/// At least the relay-fee floor.
pub open spec fn at_least_floor(fee: u64) -> u64 {
    if fee < MIN_RELAY_FEE_FLOOR {
        MIN_RELAY_FEE_FLOOR
    } else {
        fee
    }
}

fn one_or_more(n: u64) -> (r: u64)
    ensures
        r == at_least_one(n),
{
    if n < 1 {
        1
    } else {
        n
    }
}

fn floor_or_more(fee: u64) -> (r: u64)
    ensures
        r == at_least_floor(fee),
{
    if fee < MIN_RELAY_FEE_FLOOR {
        MIN_RELAY_FEE_FLOOR
    } else {
        fee
    }
}

/// What is said of a text that is no socket address.
pub open spec fn bad_socket_text(label: Seq<char>, entry: SocketText, error: Seq<char>) -> Seq<char> {
    "invalid "@ + label + " `"@ + entry.text@ + "` in config: "@ + error
}

/// The addresses of a list of texts, or what is said of the first that is none.
pub open spec fn sockets_of(
    entries: Seq<SocketText>,
    label: Seq<char>,
) -> Result<Seq<SocketAddr>, Seq<char>>
    decreases entries.len(),
{
    if entries.len() == 0 {
        Ok(Seq::empty())
    } else {
        match sockets_of(entries.drop_last(), label) {
            Err(error) => Err(error),
            Ok(before) => match entries.last().parsed {
                Ok(addr) => Ok(before.push(addr)),
                Err(error) => Err(bad_socket_text(label, entries.last(), error@)),
            },
        }
    }
}

/// The outcome of a fallible step, with texts taken by their views.
pub open spec fn outcome_of<T>(r: Result<T, String>) -> Result<T, Seq<char>> {
    match r {
        Ok(value) => Ok(value),
        Err(error) => Err(error@),
    }
}

proof fn lemma_first_bad_socket(entries: Seq<SocketText>, label: Seq<char>, i: int)
    requires
        0 <= i <= entries.len(),
        sockets_of(entries.take(i), label) is Err,
    ensures
        sockets_of(entries, label) == sockets_of(entries.take(i), label),
    decreases entries.len(),
{
    if i == entries.len() {
        assert(entries.take(i) =~= entries);
    } else {
        assert(entries.drop_last().take(i) =~= entries.take(i));
        lemma_first_bad_socket(entries.drop_last(), label, i);
    }
}

fn parse_sockets(entries: &Vec<SocketText>, label: &str) -> (r: Result<Vec<SocketAddr>, String>)
    ensures
        match r {
            Ok(list) => sockets_of(entries@, label@) == Ok::<Seq<SocketAddr>, Seq<char>>(list@),
            Err(error) => sockets_of(entries@, label@) == Err::<Seq<SocketAddr>, Seq<char>>(error@),
        },
{
    let mut list: Vec<SocketAddr> = Vec::new();
    let mut i: usize = 0;
    assert(entries@.take(0) =~= Seq::<SocketText>::empty());
    while i < entries.len()
        invariant
            i <= entries@.len(),
            sockets_of(entries@.take(i as int), label@) == Ok::<Seq<SocketAddr>, Seq<char>>(list@),
        decreases entries@.len() - i,
    {
        let entry = &entries[i];
        proof {
            assert(entries@.take(i + 1).drop_last() =~= entries@.take(i as int));
            assert(entries@.take(i + 1).last() == entries@[i as int]);
        }
        match &entry.parsed {
            Ok(addr) => {
                list.push(*addr);
            },
            Err(error) => {
                let mut text = String::from_str("invalid ");
                text.append(label);
                text.append(" `");
                text.append(entry.text.as_str());
                text.append("` in config: ");
                text.append(error.as_str());
                proof {
                    lemma_first_bad_socket(entries@, label@, i + 1);
                }
                return Err(text);
            },
        }
        i = i + 1;
    }
    assert(entries@.take(i as int) =~= entries@);
    Ok(list)
}

/// The public addresses of a file; none if it names none.
pub open spec fn public_entries(entries: Option<OneOrMany<SocketText>>) -> Seq<SocketText> {
    match entries {
        Some(entries) => entries.items(),
        None => Seq::empty(),
    }
}

/// The miner that a file names: an explicit address goes before a wallet.
pub open spec fn miner_of(
    before: Address,
    wallet: Option<Result<Address, String>>,
    miner: Option<Result<Address, String>>,
) -> Result<Address, Seq<char>> {
    match wallet {
        Some(Err(error)) => Err(error@),
        _ => match miner {
            Some(Err(error)) => Err(error@),
            Some(Ok(address)) => Ok(address),
            None => match wallet {
                Some(Ok(address)) => Ok(address),
                _ => Ok(before),
            },
        },
    }
}

/// A configuration overlaid by a file, or what is wrong with the file.
pub open spec fn overlaid(config: ConfigModel, file: RunConfigFile) -> Result<ConfigModel, Seq<char>> {
    match sockets_of(file.listen_addr.items(), "listen_addr"@) {
        Err(error) => Err(error),
        Ok(listen_addrs) => match file.rpc_addr.parsed {
            Err(error) => Err("invalid rpc_addr in config: "@ + error@),
            Ok(rpc_addr) => match sockets_of(file.peers@, "peer"@) {
                Err(error) => Err(error),
                Ok(peers) => match sockets_of(public_entries(file.public_addr), "public_addr"@) {
                    Err(error) => Err(error),
                    Ok(public_addrs) => match miner_of(
                        config.miner_address,
                        file.wallet,
                        file.miner_address,
                    ) {
                        Err(error) => Err(error),
                        Ok(miner_address) => match file.miner_secret_key {
                            Some(Err(error)) => Err(error@),
                            _ => Ok(
                                ConfigModel {
                                    db_path: file.db_path@,
                                    listen_addrs,
                                    rpc_addr,
                                    peers,
                                    peers_file: text_of(file.peers_file),
                                    gateway_url: text_of(file.gateway_url),
                                    public_addrs,
                                    gateway_heartbeat: at_least_one(file.gateway_heartbeat_secs),
                                    shutdown_file: file.shutdown_file@,
                                    max_peers: if file.max_peers < 1 {
                                        1
                                    } else {
                                        file.max_peers
                                    },
                                    min_relay_fee: at_least_floor(
                                        match file.min_relay_fee {
                                            Some(fee) => fee,
                                            None => config.min_relay_fee,
                                        },
                                    ),
                                    market_fee: match file.market_fee {
                                        Some(fee) => fee,
                                        None => config.market_fee,
                                    },
                                    low_fee_expiry: match file.low_fee_expiry_secs {
                                        Some(secs) => at_least_one(secs),
                                        None => config.low_fee_expiry,
                                    },
                                    mempool_expiry: match file.mempool_expiry_secs {
                                        Some(secs) => at_least_one(secs),
                                        None => config.mempool_expiry,
                                    },
                                    miner_address,
                                    miner_secret_key: match file.miner_secret_key {
                                        Some(Ok(key)) => Some(key@),
                                        _ => config.miner_secret_key,
                                    },
                                    miner_min_fee_rate: file.miner_min_fee_rate,
                                    mine: file.mine,
                                    mine_interval: file.mine_interval_secs,
                                    mine_attempts: file.mine_attempts,
                                },
                            ),
                        },
                    },
                },
            },
        },
    }
}

/// Overlays a configuration by a file.
pub fn apply_file(config: RunConfig, file: RunConfigFile) -> (r: Result<RunConfig, String>)
    ensures
        match r {
            Ok(after) => overlaid(config@, file) == Ok::<ConfigModel, Seq<char>>(after@),
            Err(error) => overlaid(config@, file) == Err::<ConfigModel, Seq<char>>(error@),
        },
{
    let ghost original = file;
    let listen = file.listen_addr.into_vec();
    let listen_addrs = match parse_sockets(&listen, "listen_addr") {
        Ok(list) => list,
        Err(error) => {
            return Err(error);
        },
    };
    let rpc_addr = match file.rpc_addr.parsed {
        Ok(addr) => addr,
        Err(error) => {
            let mut text = String::from_str("invalid rpc_addr in config: ");
            text.append(error.as_str());
            return Err(text);
        },
    };
    let peers = match parse_sockets(&file.peers, "peer") {
        Ok(list) => list,
        Err(error) => {
            return Err(error);
        },
    };
    let public: Vec<SocketText> = match file.public_addr {
        Some(entries) => entries.into_vec(),
        None => Vec::new(),
    };
    assert(public@ =~= public_entries(original.public_addr));
    let public_addrs = match parse_sockets(&public, "public_addr") {
        Ok(list) => list,
        Err(error) => {
            return Err(error);
        },
    };
    let mut miner_address = config.miner_address;
    match file.wallet {
        Some(Ok(address)) => {
            miner_address = address;
        },
        Some(Err(error)) => {
            return Err(error);
        },
        None => {},
    }
    match file.miner_address {
        Some(Ok(address)) => {
            miner_address = address;
        },
        Some(Err(error)) => {
            return Err(error);
        },
        None => {},
    }
    let mut miner_secret_key = config.miner_secret_key;
    match file.miner_secret_key {
        Some(Ok(key)) => {
            miner_secret_key = Some(key);
        },
        Some(Err(error)) => {
            return Err(error);
        },
        None => {},
    }
    let after = RunConfig {
        db_path: file.db_path,
        listen_addrs,
        rpc_addr,
        peers,
        peers_file: file.peers_file,
        gateway_url: file.gateway_url,
        public_addrs,
        gateway_heartbeat: one_or_more(file.gateway_heartbeat_secs),
        shutdown_file: file.shutdown_file,
        max_peers: if file.max_peers < 1 {
            1
        } else {
            file.max_peers
        },
        min_relay_fee: floor_or_more(
            match file.min_relay_fee {
                Some(fee) => fee,
                None => config.min_relay_fee,
            },
        ),
        market_fee: match file.market_fee {
            Some(fee) => fee,
            None => config.market_fee,
        },
        low_fee_expiry: match file.low_fee_expiry_secs {
            Some(secs) => one_or_more(secs),
            None => config.low_fee_expiry,
        },
        mempool_expiry: match file.mempool_expiry_secs {
            Some(secs) => one_or_more(secs),
            None => config.mempool_expiry,
        },
        miner_address,
        miner_secret_key,
        miner_min_fee_rate: file.miner_min_fee_rate,
        mine: file.mine,
        mine_interval: file.mine_interval_secs,
        mine_attempts: file.mine_attempts,
    };
    Ok(after)
}

/// The options of a run.
#[derive(Clone, Copy, Debug, PartialEq, Eq, Structural)]
pub enum RunFlag {
    Config,
    Db,
    Listen,
    RpcListen,
    Peer,
    PeersFile,
    Gateway,
    PublicAddr,
    GatewayHeartbeat,
    ShutdownFile,
    MaxPeers,
    MinRelayFee,
    MarketFee,
    LowFeeExpiry,
    MempoolExpiry,
    Miner,
    Wallet,
    MinerSecretKey,
    MinerMinFeeRate,
    Premine,
    Mine,
    MineInterval,
    MineAttempts,
    /// Anything else.
    Other,
}

/// The option that a text names.
pub open spec fn flag_named(text: Seq<char>) -> RunFlag {
    if text == "--config"@ {
        RunFlag::Config
    } else if text == "--db"@ || text == "--db-path"@ {
        RunFlag::Db
    } else if text == "--listen"@ {
        RunFlag::Listen
    } else if text == "--rpc-listen"@ {
        RunFlag::RpcListen
    } else if text == "--peer"@ {
        RunFlag::Peer
    } else if text == "--peers-file"@ {
        RunFlag::PeersFile
    } else if text == "--gateway"@ || text == "--gateway-url"@ {
        RunFlag::Gateway
    } else if text == "--public-addr"@ {
        RunFlag::PublicAddr
    } else if text == "--gateway-heartbeat-secs"@ {
        RunFlag::GatewayHeartbeat
    } else if text == "--shutdown-file"@ {
        RunFlag::ShutdownFile
    } else if text == "--max-peers"@ {
        RunFlag::MaxPeers
    } else if text == "--min-relay-fee"@ {
        RunFlag::MinRelayFee
    } else if text == "--market-fee"@ {
        RunFlag::MarketFee
    } else if text == "--low-fee-expiry-secs"@ {
        RunFlag::LowFeeExpiry
    } else if text == "--mempool-expiry-secs"@ {
        RunFlag::MempoolExpiry
    } else if text == "--miner"@ {
        RunFlag::Miner
    } else if text == "--wallet"@ {
        RunFlag::Wallet
    } else if text == "--miner-secret-key"@ {
        RunFlag::MinerSecretKey
    } else if text == "--miner-min-fee-rate"@ {
        RunFlag::MinerMinFeeRate
    } else if text == "--premine"@ {
        RunFlag::Premine
    } else if text == "--mine"@ {
        RunFlag::Mine
    } else if text == "--mine-interval-secs"@ {
        RunFlag::MineInterval
    } else if text == "--mine-attempts"@ {
        RunFlag::MineAttempts
    } else {
        RunFlag::Other
    }
}

/// The option that a text names.
pub fn flag_of(text: &str) -> (r: RunFlag)
    ensures
        r == flag_named(text@),
{
    if same_text(text, "--config") {
        RunFlag::Config
    } else if same_text(text, "--db") || same_text(text, "--db-path") {
        RunFlag::Db
    } else if same_text(text, "--listen") {
        RunFlag::Listen
    } else if same_text(text, "--rpc-listen") {
        RunFlag::RpcListen
    } else if same_text(text, "--peer") {
        RunFlag::Peer
    } else if same_text(text, "--peers-file") {
        RunFlag::PeersFile
    } else if same_text(text, "--gateway") || same_text(text, "--gateway-url") {
        RunFlag::Gateway
    } else if same_text(text, "--public-addr") {
        RunFlag::PublicAddr
    } else if same_text(text, "--gateway-heartbeat-secs") {
        RunFlag::GatewayHeartbeat
    } else if same_text(text, "--shutdown-file") {
        RunFlag::ShutdownFile
    } else if same_text(text, "--max-peers") {
        RunFlag::MaxPeers
    } else if same_text(text, "--min-relay-fee") {
        RunFlag::MinRelayFee
    } else if same_text(text, "--market-fee") {
        RunFlag::MarketFee
    } else if same_text(text, "--low-fee-expiry-secs") {
        RunFlag::LowFeeExpiry
    } else if same_text(text, "--mempool-expiry-secs") {
        RunFlag::MempoolExpiry
    } else if same_text(text, "--miner") {
        RunFlag::Miner
    } else if same_text(text, "--wallet") {
        RunFlag::Wallet
    } else if same_text(text, "--miner-secret-key") {
        RunFlag::MinerSecretKey
    } else if same_text(text, "--miner-min-fee-rate") {
        RunFlag::MinerMinFeeRate
    } else if same_text(text, "--premine") {
        RunFlag::Premine
    } else if same_text(text, "--mine") {
        RunFlag::Mine
    } else if same_text(text, "--mine-interval-secs") {
        RunFlag::MineInterval
    } else if same_text(text, "--mine-attempts") {
        RunFlag::MineAttempts
    } else {
        RunFlag::Other
    }
}

/// An argument, with what it is if it is meant to be a socket address, an address, a secret key or
/// the path of a wallet.
#[derive(Debug, PartialEq, Eq)]
pub struct RunArg {
    pub text: String,
    pub socket: Result<SocketAddr, String>,
    pub address: Result<Address, String>,
    pub secret_key: Result<Vec<u8>, String>,
    pub wallet: Result<Address, String>,
}

/// The state of reading arguments: the configuration so far, and whether addresses of the
/// configuration were already replaced by arguments.
#[verifier::ext_equal]
pub struct ReadState {
    pub config: ConfigModel,
    pub listen_overridden: bool,
    pub public_overridden: bool,
}

/// What is said when a value is missing.
pub open spec fn missing_value(flag: Seq<char>) -> Seq<char> {
    "missing value for "@ + flag
}

/// The number behind an option.
pub open spec fn number_at(args: Seq<RunArg>, i: int, flag: Seq<char>) -> Result<u64, Seq<char>> {
    if i < args.len() {
        let text = args[i].text@;
        if spells_u64(text) {
            Ok(digits_value(unsigned_part(text)) as u64)
        } else {
            Err("invalid "@ + flag + ": "@ + u64_parse_error(text))
        }
    } else {
        Err(missing_value(flag))
    }
}

/// The text behind an option.
pub open spec fn text_at(args: Seq<RunArg>, i: int, flag: Seq<char>) -> Result<Seq<char>, Seq<char>> {
    if i < args.len() {
        Ok(args[i].text@)
    } else {
        Err(missing_value(flag))
    }
}

/// The socket address behind an option.
pub open spec fn socket_at(args: Seq<RunArg>, i: int, flag: Seq<char>) -> Result<SocketAddr, Seq<char>> {
    if i < args.len() {
        match args[i].socket {
            Ok(addr) => Ok(addr),
            Err(error) => Err("invalid socket address for "@ + flag + ": "@ + error@),
        }
    } else {
        Err(missing_value(flag))
    }
}

/// The address behind an option.
pub open spec fn address_at(args: Seq<RunArg>, i: int, flag: Seq<char>) -> Result<Address, Seq<char>> {
    if i < args.len() {
        outcome_of(args[i].address)
    } else {
        Err(missing_value(flag))
    }
}

/// The miner of the wallet behind an option.
pub open spec fn wallet_at(args: Seq<RunArg>, i: int, flag: Seq<char>) -> Result<Address, Seq<char>> {
    if i < args.len() {
        outcome_of(args[i].wallet)
    } else {
        Err(missing_value(flag))
    }
}

/// The secret key behind an option.
pub open spec fn secret_at(args: Seq<RunArg>, i: int, flag: Seq<char>) -> Result<Seq<u8>, Seq<char>> {
    if i < args.len() {
        match args[i].secret_key {
            Ok(key) => Ok(key@),
            Err(error) => Err(error@),
        }
    } else {
        Err(missing_value(flag))
    }
}

/// A socket address added to a list, which it replaces if it is the first one on the command line.
pub open spec fn joined(list: Seq<SocketAddr>, overridden: bool, addr: SocketAddr) -> Seq<SocketAddr> {
    if overridden {
        list.push(addr)
    } else {
        seq![addr]
    }
}

/// The state after the argument at a position, and the number of arguments that were used up; or what
/// is wrong with it.
pub open spec fn read_one(
    args: Seq<RunArg>,
    i: int,
    state: ReadState,
) -> Result<(ReadState, int), Seq<char>> {
    let config = state.config;
    let text = args[i].text@;
    match flag_named(text) {
        RunFlag::Config => match text_at(args, i + 1, "--config"@) {
            Err(error) => Err(error),
            Ok(_) => Ok((state, 2)),
        },
        RunFlag::Db => match text_at(args, i + 1, "--db"@) {
            Err(error) => Err(error),
            Ok(path) => Ok(
                (ReadState { config: ConfigModel { db_path: path, ..config }, ..state }, 2),
            ),
        },
        RunFlag::Listen => match socket_at(args, i + 1, "--listen"@) {
            Err(error) => Err(error),
            Ok(addr) => Ok(
                (
                    ReadState {
                        config: ConfigModel {
                            listen_addrs: joined(
                                config.listen_addrs,
                                state.listen_overridden,
                                addr,
                            ),
                            ..config
                        },
                        listen_overridden: true,
                        ..state
                    },
                    2,
                ),
            ),
        },
        RunFlag::RpcListen => match socket_at(args, i + 1, "--rpc-listen"@) {
            Err(error) => Err(error),
            Ok(addr) => Ok(
                (ReadState { config: ConfigModel { rpc_addr: addr, ..config }, ..state }, 2),
            ),
        },
        RunFlag::Peer => match socket_at(args, i + 1, "--peer"@) {
            Err(error) => Err(error),
            Ok(addr) => Ok(
                (
                    ReadState {
                        config: ConfigModel { peers: config.peers.push(addr), ..config },
                        ..state
                    },
                    2,
                ),
            ),
        },
        RunFlag::PeersFile => match text_at(args, i + 1, "--peers-file"@) {
            Err(error) => Err(error),
            Ok(path) => Ok(
                (
                    ReadState {
                        config: ConfigModel { peers_file: Some(path), ..config },
                        ..state
                    },
                    2,
                ),
            ),
        },
        RunFlag::Gateway => match text_at(args, i + 1, "--gateway"@) {
            Err(error) => Err(error),
            Ok(url) => Ok(
                (
                    ReadState {
                        config: ConfigModel { gateway_url: Some(url), ..config },
                        ..state
                    },
                    2,
                ),
            ),
        },
        RunFlag::PublicAddr => match socket_at(args, i + 1, "--public-addr"@) {
            Err(error) => Err(error),
            Ok(addr) => Ok(
                (
                    ReadState {
                        config: ConfigModel {
                            public_addrs: joined(
                                config.public_addrs,
                                state.public_overridden,
                                addr,
                            ),
                            ..config
                        },
                        public_overridden: true,
                        ..state
                    },
                    2,
                ),
            ),
        },
        RunFlag::GatewayHeartbeat => match number_at(args, i + 1, "--gateway-heartbeat-secs"@) {
            Err(error) => Err(error),
            Ok(n) => Ok(
                (
                    ReadState {
                        config: ConfigModel { gateway_heartbeat: at_least_one(n), ..config },
                        ..state
                    },
                    2,
                ),
            ),
        },
        RunFlag::ShutdownFile => match text_at(args, i + 1, "--shutdown-file"@) {
            Err(error) => Err(error),
            Ok(path) => Ok(
                (ReadState { config: ConfigModel { shutdown_file: path, ..config }, ..state }, 2),
            ),
        },
        RunFlag::MaxPeers => match number_at(args, i + 1, "--max-peers"@) {
            Err(error) => Err(error),
            Ok(n) => Ok(
                (
                    ReadState {
                        config: ConfigModel {
                            max_peers: if (n as usize) < 1 {
                                1
                            } else {
                                n as usize
                            },
                            ..config
                        },
                        ..state
                    },
                    2,
                ),
            ),
        },
        RunFlag::MinRelayFee => match number_at(args, i + 1, "--min-relay-fee"@) {
            Err(error) => Err(error),
            Ok(n) => Ok(
                (
                    ReadState {
                        config: ConfigModel { min_relay_fee: at_least_floor(n), ..config },
                        ..state
                    },
                    2,
                ),
            ),
        },
        RunFlag::MarketFee => match number_at(args, i + 1, "--market-fee"@) {
            Err(error) => Err(error),
            Ok(n) => Ok(
                (ReadState { config: ConfigModel { market_fee: n, ..config }, ..state }, 2),
            ),
        },
        RunFlag::LowFeeExpiry => match number_at(args, i + 1, "--low-fee-expiry-secs"@) {
            Err(error) => Err(error),
            Ok(n) => Ok(
                (
                    ReadState {
                        config: ConfigModel { low_fee_expiry: at_least_one(n), ..config },
                        ..state
                    },
                    2,
                ),
            ),
        },
        RunFlag::MempoolExpiry => match number_at(args, i + 1, "--mempool-expiry-secs"@) {
            Err(error) => Err(error),
            Ok(n) => Ok(
                (
                    ReadState {
                        config: ConfigModel { mempool_expiry: at_least_one(n), ..config },
                        ..state
                    },
                    2,
                ),
            ),
        },
        RunFlag::Miner => match address_at(args, i + 1, "--miner"@) {
            Err(error) => Err(error),
            Ok(address) => Ok(
                (
                    ReadState { config: ConfigModel { miner_address: address, ..config }, ..state },
                    2,
                ),
            ),
        },
        RunFlag::Wallet => match wallet_at(args, i + 1, "--wallet"@) {
            Err(error) => Err(error),
            Ok(address) => Ok(
                (
                    ReadState { config: ConfigModel { miner_address: address, ..config }, ..state },
                    2,
                ),
            ),
        },
        RunFlag::MinerSecretKey => match secret_at(args, i + 1, "--miner-secret-key"@) {
            Err(error) => Err(error),
            Ok(key) => Ok(
                (
                    ReadState {
                        config: ConfigModel { miner_secret_key: Some(key), ..config },
                        ..state
                    },
                    2,
                ),
            ),
        },
        RunFlag::MinerMinFeeRate => match number_at(args, i + 1, "--miner-min-fee-rate"@) {
            Err(error) => Err(error),
            Ok(n) => Ok(
                (
                    ReadState {
                        config: ConfigModel { miner_min_fee_rate: Some(n), ..config },
                        ..state
                    },
                    2,
                ),
            ),
        },
        RunFlag::Premine => Err("premine address is fixed by protocol and cannot be overridden"@),
        RunFlag::Mine => Ok((ReadState { config: ConfigModel { mine: true, ..config }, ..state }, 1)),
        RunFlag::MineInterval => match number_at(args, i + 1, "--mine-interval-secs"@) {
            Err(error) => Err(error),
            Ok(n) => Ok(
                (ReadState { config: ConfigModel { mine_interval: n, ..config }, ..state }, 2),
            ),
        },
        RunFlag::MineAttempts => match number_at(args, i + 1, "--mine-attempts"@) {
            Err(error) => Err(error),
            Ok(n) => Ok(
                (ReadState { config: ConfigModel { mine_attempts: n, ..config }, ..state }, 2),
            ),
        },
        RunFlag::Other => if !(text.len() > 0 && text[0] == '-') && config.db_path
            == "./data/paqus"@ {
            Ok((ReadState { config: ConfigModel { db_path: text, ..config }, ..state }, 1))
        } else {
            Err("unknown node run option `"@ + text + "`"@)
        },
    }
}

/// The state after all arguments from a position on, or what is wrong with the first bad one.
pub open spec fn read_all(
    args: Seq<RunArg>,
    i: int,
    state: ReadState,
) -> Result<ReadState, Seq<char>>
    decreases args.len() - i,
{
    if i >= args.len() {
        Ok(state)
    } else {
        match read_one(args, i, state) {
            Err(error) => Err(error),
            Ok((next, used)) => if used > 0 {
                read_all(args, i + used, next)
            } else {
                Ok(next)
            },
        }
    }
}

/// A configuration whose fees and lifetimes fit together.
pub open spec fn normalized(config: ConfigModel) -> ConfigModel {
    let min_relay_fee = at_least_floor(config.min_relay_fee);
    ConfigModel {
        min_relay_fee,
        market_fee: if config.market_fee < min_relay_fee {
            min_relay_fee
        } else {
            config.market_fee
        },
        low_fee_expiry: if config.low_fee_expiry > config.mempool_expiry {
            config.mempool_expiry
        } else {
            config.low_fee_expiry
        },
        ..config
    }
}

/// A configuration in its final form: no socket address twice, and normalized.
pub open spec fn finished(config: ConfigModel) -> ConfigModel {
    normalized(
        ConfigModel {
            listen_addrs: deduped(config.listen_addrs),
            public_addrs: deduped(config.public_addrs),
            ..config
        },
    )
}

/// The configuration that defaults, an optional file and arguments add up to, or what is wrong.
pub open spec fn run_config(
    args: Seq<RunArg>,
    file: Option<RunConfigFile>,
) -> Result<ConfigModel, Seq<char>> {
    let base = match file {
        Some(file) => overlaid(default_config(), file),
        None => Ok(default_config()),
    };
    match base {
        Err(error) => Err(error),
        Ok(config) => match read_all(
            args,
            0,
            ReadState { config, listen_overridden: false, public_overridden: false },
        ) {
            Err(error) => Err(error),
            Ok(state) => Ok(finished(state.config)),
        },
    }
}

/// A normalized configuration charges at least the floor for relaying, at least the relay fee as
/// market fee, and drops cheap transactions no later than others.
pub proof fn normalized_config_is_consistent(config: ConfigModel)
    ensures
        ({
            let n = normalized(config);
            &&& MIN_RELAY_FEE_FLOOR <= n.min_relay_fee <= n.market_fee
            &&& n.low_fee_expiry <= n.mempool_expiry
            &&& normalized(n) == n
        }),
{
    assert(normalized(normalized(config)) =~= normalized(config));
}

/// Heartbeat, peer limit and lifetimes are at least one.
spec fn has_no_zeros(config: ConfigModel) -> bool {
    &&& config.gateway_heartbeat >= 1
    &&& config.max_peers >= 1
    &&& config.low_fee_expiry >= 1
    &&& config.mempool_expiry >= 1
}

proof fn lemma_arguments_bring_no_zeros(args: Seq<RunArg>, i: int, state: ReadState)
    requires
        has_no_zeros(state.config),
    ensures
        read_all(args, i, state) matches Ok(end) ==> has_no_zeros(end.config),
    decreases args.len() - i,
{
    if i < args.len() {
        match read_one(args, i, state) {
            Err(_) => {},
            Ok((next, used)) => {
                assert(has_no_zeros(next.config));
                if used > 0 {
                    lemma_arguments_bring_no_zeros(args, i + used, next);
                }
            },
        }
    }
}

/// Whatever the file and the arguments say, a configuration that is accepted is consistent: heartbeat,
/// peer limit and both lifetimes are at least one, neither list of own socket addresses holds one
/// twice, at least the floor is charged for relaying, at least the relay fee is the market fee, and
/// cheap transactions are dropped no later than others.
pub proof fn accepted_configs_are_consistent(args: Seq<RunArg>, file: Option<RunConfigFile>)
    ensures
        run_config(args, file) matches Ok(config) ==> {
            &&& config.gateway_heartbeat >= 1
            &&& config.max_peers >= 1
            &&& 1 <= config.low_fee_expiry <= config.mempool_expiry
            &&& MIN_RELAY_FEE_FLOOR <= config.min_relay_fee <= config.market_fee
            &&& config.listen_addrs.no_duplicates()
            &&& config.public_addrs.no_duplicates()
        },
{
    let base = match file {
        Some(file) => overlaid(default_config(), file),
        None => Ok(default_config()),
    };
    match base {
        Err(_) => {},
        Ok(config) => {
            assert(has_no_zeros(config));
            let state = ReadState { config, listen_overridden: false, public_overridden: false };
            lemma_arguments_bring_no_zeros(args, 0, state);
            match read_all(args, 0, state) {
                Err(_) => {},
                Ok(end) => {
                    dedupe_keeps_each_once(end.config.listen_addrs);
                    dedupe_keeps_each_once(end.config.public_addrs);
                },
            }
        },
    }
}

/// A run that names a wallet and asks to mine mines for that wallet.
pub proof fn wallets_start_mining(args: Seq<RunArg>, miner: Address)
    requires
        args.len() == 3,
        args[0].text@ == "--wallet"@,
        args[1].wallet == Ok::<Address, String>(miner),
        args[2].text@ == "--mine"@,
    ensures
        run_config(args, None) matches Ok(config) && config.mine && config.miner_address == miner,
{
    reveal_strlit("--wallet");
    reveal_strlit("--mine");
    reveal_strlit("--config");
    reveal_strlit("--db");
    reveal_strlit("--db-path");
    reveal_strlit("--listen");
    reveal_strlit("--rpc-listen");
    reveal_strlit("--peer");
    reveal_strlit("--peers-file");
    reveal_strlit("--gateway");
    reveal_strlit("--gateway-url");
    reveal_strlit("--public-addr");
    reveal_strlit("--gateway-heartbeat-secs");
    reveal_strlit("--shutdown-file");
    reveal_strlit("--max-peers");
    reveal_strlit("--min-relay-fee");
    reveal_strlit("--market-fee");
    reveal_strlit("--low-fee-expiry-secs");
    reveal_strlit("--mempool-expiry-secs");
    reveal_strlit("--miner");
    reveal_strlit("--miner-secret-key");
    reveal_strlit("--miner-min-fee-rate");
    reveal_strlit("--premine");
    let start = ReadState {
        config: default_config(),
        listen_overridden: false,
        public_overridden: false,
    };
    assert("--wallet"@.len() == 8 && "--mine"@.len() == 6);
    assert("--wallet"@[2] == 'w' && "--mine"@[2] == 'm');
    assert("--config"@.len() == 8 && "--config"@[2] == 'c');
    assert("--listen"@.len() == 8 && "--listen"@[2] == 'l');
    assert("--db"@.len() == 4 && "--db-path"@.len() == 9 && "--rpc-listen"@.len() == 12);
    assert("--peer"@.len() == 6 && "--peer"@[2] == 'p');
    assert("--peers-file"@.len() == 12 && "--gateway"@.len() == 9);
    assert("--gateway-url"@.len() == 13 && "--public-addr"@.len() == 13);
    assert("--gateway-heartbeat-secs"@.len() == 24 && "--shutdown-file"@.len() == 15);
    assert("--max-peers"@.len() == 11 && "--min-relay-fee"@.len() == 15);
    assert("--market-fee"@.len() == 12 && "--low-fee-expiry-secs"@.len() == 21);
    assert("--mempool-expiry-secs"@.len() == 21 && "--miner"@.len() == 7);
    assert("--miner-secret-key"@.len() == 18 && "--miner-min-fee-rate"@.len() == 20);
    assert("--premine"@.len() == 9);
    assert(flag_named("--wallet"@) == RunFlag::Wallet);
    assert(flag_named("--mine"@) == RunFlag::Mine);
    reveal_with_fuel(read_all, 3);
    assert(read_one(args, 0, start) is Ok);
}

fn missing_text(flag: &str) -> (r: String)
    ensures
        r@ == missing_value(flag@),
{
    let mut text = String::from_str("missing value for ");
    text.append(flag);
    text
}

/// The text behind an option.
pub fn required<'a>(args: &'a Vec<RunArg>, index: usize, flag: &str) -> (r: Result<
    &'a String,
    String,
>)
    ensures
        match r {
            Ok(text) => text_at(args@, index as int, flag@) == Ok::<Seq<char>, Seq<char>>(text@),
            Err(error) => text_at(args@, index as int, flag@) == Err::<Seq<char>, Seq<char>>(
                error@,
            ),
        },
{
    if index < args.len() {
        Ok(&args[index].text)
    } else {
        Err(missing_text(flag))
    }
}

/// The number behind an option.
pub fn number(args: &Vec<RunArg>, index: usize, flag: &str) -> (r: Result<u64, String>)
    ensures
        outcome_of(r) == number_at(args@, index as int, flag@),
{
    match required(args, index, flag) {
        Err(error) => Err(error),
        Ok(text) => match parse_u64(text.as_str()) {
            Ok(n) => Ok(n),
            Err(error) => {
                let mut message = String::from_str("invalid ");
                message.append(flag);
                message.append(": ");
                message.append(error.as_str());
                Err(message)
            },
        },
    }
}

fn socket(args: &Vec<RunArg>, index: usize, flag: &str) -> (r: Result<SocketAddr, String>)
    ensures
        outcome_of(r) == socket_at(args@, index as int, flag@),
{
    if index < args.len() {
        match &args[index].socket {
            Ok(addr) => Ok(*addr),
            Err(error) => {
                let mut message = String::from_str("invalid socket address for ");
                message.append(flag);
                message.append(": ");
                message.append(error.as_str());
                Err(message)
            },
        }
    } else {
        Err(missing_text(flag))
    }
}

fn address(args: &Vec<RunArg>, index: usize, flag: &str) -> (r: Result<Address, String>)
    ensures
        outcome_of(r) == address_at(args@, index as int, flag@),
{
    if index < args.len() {
        match &args[index].address {
            Ok(address) => Ok(*address),
            Err(error) => Err(error.clone()),
        }
    } else {
        Err(missing_text(flag))
    }
}

fn wallet(args: &Vec<RunArg>, index: usize, flag: &str) -> (r: Result<Address, String>)
    ensures
        outcome_of(r) == wallet_at(args@, index as int, flag@),
{
    if index < args.len() {
        match &args[index].wallet {
            Ok(address) => Ok(*address),
            Err(error) => Err(error.clone()),
        }
    } else {
        Err(missing_text(flag))
    }
}

fn secret_key(args: &Vec<RunArg>, index: usize, flag: &str) -> (r: Result<Vec<u8>, String>)
    ensures
        match r {
            Ok(key) => secret_at(args@, index as int, flag@) == Ok::<Seq<u8>, Seq<char>>(key@),
            Err(error) => secret_at(args@, index as int, flag@) == Err::<Seq<u8>, Seq<char>>(
                error@,
            ),
        },
{
    if index < args.len() {
        match &args[index].secret_key {
            Ok(key) => Ok(crate::chain::copy_list(key)),
            Err(error) => Err(error.clone()),
        }
    } else {
        Err(missing_text(flag))
    }
}

struct Reading {
    config: RunConfig,
    listen_overridden: bool,
    public_overridden: bool,
}

impl View for Reading {
    type V = ReadState;

    closed spec fn view(&self) -> ReadState {
        ReadState {
            config: self.config@,
            listen_overridden: self.listen_overridden,
            public_overridden: self.public_overridden,
        }
    }
}

fn push_addr(list: &mut Vec<SocketAddr>, overridden: bool, addr: SocketAddr)
    ensures
        final(list)@ == joined(old(list)@, overridden, addr),
{
    if !overridden {
        list.clear();
    }
    list.push(addr);
    assert(list@ =~= joined(old(list)@, overridden, addr));
}

/// Reads the argument at a position; says how many arguments were used up.
fn read_arg(args: &Vec<RunArg>, index: usize, state: &mut Reading) -> (r: Result<usize, String>)
    requires
        index < args@.len(),
    ensures
        match r {
            Ok(used) => read_one(args@, index as int, old(state)@) == Ok::<
                (ReadState, int),
                Seq<char>,
            >((final(state)@, used as int)) && 1 <= used <= 2,
            Err(error) => read_one(args@, index as int, old(state)@) == Err::<
                (ReadState, int),
                Seq<char>,
            >(error@),
        },
{
    assert(index < args.len());
    let used: usize;
    let text = &args[index].text;
    match flag_of(text.as_str()) {
        RunFlag::Config => match required(args, index + 1, "--config") {
            Ok(_) => {
                used = 2;
            },
            Err(error) => {
                return Err(error);
            },
        },
        RunFlag::Db => match required(args, index + 1, "--db") {
            Ok(value) => {
                state.config.db_path = value.clone();
                used = 2;
            },
            Err(error) => {
                return Err(error);
            },
        },
        RunFlag::Listen => match socket(args, index + 1, "--listen") {
            Ok(value) => {
                push_addr(&mut state.config.listen_addrs, state.listen_overridden, value);
                state.listen_overridden = true;
                used = 2;
            },
            Err(error) => {
                return Err(error);
            },
        },
        RunFlag::RpcListen => match socket(args, index + 1, "--rpc-listen") {
            Ok(value) => {
                state.config.rpc_addr = value;
                used = 2;
            },
            Err(error) => {
                return Err(error);
            },
        },
        RunFlag::Peer => match socket(args, index + 1, "--peer") {
            Ok(value) => {
                state.config.peers.push(value);
                used = 2;
            },
            Err(error) => {
                return Err(error);
            },
        },
        RunFlag::PeersFile => match required(args, index + 1, "--peers-file") {
            Ok(value) => {
                state.config.peers_file = Some(value.clone());
                used = 2;
            },
            Err(error) => {
                return Err(error);
            },
        },
        RunFlag::Gateway => match required(args, index + 1, "--gateway") {
            Ok(value) => {
                state.config.gateway_url = Some(value.clone());
                used = 2;
            },
            Err(error) => {
                return Err(error);
            },
        },
        RunFlag::PublicAddr => match socket(args, index + 1, "--public-addr") {
            Ok(value) => {
                push_addr(&mut state.config.public_addrs, state.public_overridden, value);
                state.public_overridden = true;
                used = 2;
            },
            Err(error) => {
                return Err(error);
            },
        },
        RunFlag::GatewayHeartbeat => match number(args, index + 1, "--gateway-heartbeat-secs") {
            Ok(value) => {
                state.config.gateway_heartbeat = one_or_more(value);
                used = 2;
            },
            Err(error) => {
                return Err(error);
            },
        },
        RunFlag::ShutdownFile => match required(args, index + 1, "--shutdown-file") {
            Ok(value) => {
                state.config.shutdown_file = value.clone();
                used = 2;
            },
            Err(error) => {
                return Err(error);
            },
        },
        RunFlag::MaxPeers => match number(args, index + 1, "--max-peers") {
            Ok(value) => {
                let limit: usize = value as usize;
                state.config.max_peers = if limit < 1 {
                    1
                } else {
                    limit
                };
                used = 2;
            },
            Err(error) => {
                return Err(error);
            },
        },
        RunFlag::MinRelayFee => match number(args, index + 1, "--min-relay-fee") {
            Ok(value) => {
                state.config.min_relay_fee = floor_or_more(value);
                used = 2;
            },
            Err(error) => {
                return Err(error);
            },
        },
        RunFlag::MarketFee => match number(args, index + 1, "--market-fee") {
            Ok(value) => {
                state.config.market_fee = value;
                used = 2;
            },
            Err(error) => {
                return Err(error);
            },
        },
        RunFlag::LowFeeExpiry => match number(args, index + 1, "--low-fee-expiry-secs") {
            Ok(value) => {
                state.config.low_fee_expiry = one_or_more(value);
                used = 2;
            },
            Err(error) => {
                return Err(error);
            },
        },
        RunFlag::MempoolExpiry => match number(args, index + 1, "--mempool-expiry-secs") {
            Ok(value) => {
                state.config.mempool_expiry = one_or_more(value);
                used = 2;
            },
            Err(error) => {
                return Err(error);
            },
        },
        RunFlag::Miner => match address(args, index + 1, "--miner") {
            Ok(value) => {
                state.config.miner_address = value;
                used = 2;
            },
            Err(error) => {
                return Err(error);
            },
        },
        RunFlag::Wallet => match wallet(args, index + 1, "--wallet") {
            Ok(value) => {
                state.config.miner_address = value;
                used = 2;
            },
            Err(error) => {
                return Err(error);
            },
        },
        RunFlag::MinerSecretKey => match secret_key(args, index + 1, "--miner-secret-key") {
            Ok(value) => {
                state.config.miner_secret_key = Some(value);
                used = 2;
            },
            Err(error) => {
                return Err(error);
            },
        },
        RunFlag::MinerMinFeeRate => match number(args, index + 1, "--miner-min-fee-rate") {
            Ok(value) => {
                state.config.miner_min_fee_rate = Some(value);
                used = 2;
            },
            Err(error) => {
                return Err(error);
            },
        },
        RunFlag::Premine => {
            return Err(
                String::from_str("premine address is fixed by protocol and cannot be overridden"),
            );
        },
        RunFlag::Mine => {
            state.config.mine = true;
            used = 1;
        },
        RunFlag::MineInterval => match number(args, index + 1, "--mine-interval-secs") {
            Ok(value) => {
                state.config.mine_interval = value;
                used = 2;
            },
            Err(error) => {
                return Err(error);
            },
        },
        RunFlag::MineAttempts => match number(args, index + 1, "--mine-attempts") {
            Ok(value) => {
                state.config.mine_attempts = value;
                used = 2;
            },
            Err(error) => {
                return Err(error);
            },
        },
        RunFlag::Other => {
            if !starts_with_char(text.as_str(), '-') && same_text(
                state.config.db_path.as_str(),
                "./data/paqus",
            ) {
                state.config.db_path = text.clone();
                used = 1;
            } else {
                let mut message = String::from_str("unknown node run option `");
                message.append(text.as_str());
                message.append("`");
                return Err(message);
            }
        },
    }
    proof {
        let (after, n) = read_one(args@, index as int, old(state)@)->Ok_0;
        assert(state@.config =~= after.config);
        assert(state@ =~= after);
    }
    Ok(used)
}

/// Drops the later of equal socket addresses.
pub fn dedupe(addrs: &mut Vec<SocketAddr>)
    ensures
        final(addrs)@ == deduped(old(addrs)@),
{
    dedupe_peers(addrs)
}

fn normalize(config: &mut RunConfig)
    ensures
        final(config)@ == normalized(old(config)@),
{
    config.min_relay_fee = floor_or_more(config.min_relay_fee);
    if config.market_fee < config.min_relay_fee {
        config.market_fee = config.min_relay_fee;
    }
    if config.low_fee_expiry > config.mempool_expiry {
        config.low_fee_expiry = config.mempool_expiry;
    }
    assert(config@ =~= normalized(old(config)@));
}

/// An argument is another without the white space at both ends of its text.
pub open spec fn is_trimmed_arg(trimmed: RunArg, arg: RunArg) -> bool {
    &&& trims_to(arg.text@, trimmed.text@)
    &&& trimmed.socket == arg.socket
    &&& trimmed.address == arg.address
    &&& trimmed.secret_key == arg.secret_key
    &&& trimmed.wallet == arg.wallet
}

/// Arguments are others without the white space at both ends of their texts.
pub open spec fn are_trimmed(trimmed: Seq<RunArg>, args: Seq<RunArg>) -> bool {
    &&& trimmed.len() == args.len()
    &&& forall|i: int| 0 <= i < args.len() ==> is_trimmed_arg(#[trigger] trimmed[i], args[i])
}

/// A file that spells the standard configuration out.
pub open spec fn is_standard_file(file: RunConfigFile) -> bool {
    let standard = default_config();
    &&& file.db_path@ == standard.db_path
    &&& file.listen_addr matches OneOrMany::Many(list) && list@.len() == 1 && list@[0].text@
        == "[::]:5555"@ && list@[0].parsed == Ok::<SocketAddr, String>(standard.listen_addrs[0])
    &&& file.rpc_addr.text@ == "127.0.0.1:6666"@
    &&& file.rpc_addr.parsed == Ok::<SocketAddr, String>(standard.rpc_addr)
    &&& file.peers@.len() == 0
    &&& text_of(file.peers_file) == standard.peers_file
    &&& file.gateway_url is None
    &&& file.public_addr is None
    &&& file.gateway_heartbeat_secs == standard.gateway_heartbeat
    &&& file.shutdown_file@ == standard.shutdown_file
    &&& file.max_peers == standard.max_peers
    &&& file.min_relay_fee == Some(standard.min_relay_fee)
    &&& file.market_fee == Some(standard.market_fee)
    &&& file.low_fee_expiry_secs == Some(standard.low_fee_expiry)
    &&& file.mempool_expiry_secs == Some(standard.mempool_expiry)
    &&& file.wallet is None
    &&& file.miner_address is None
    &&& file.miner_secret_key is None
    &&& file.miner_min_fee_rate is None
    &&& !file.mine
    &&& file.mine_interval_secs == standard.mine_interval
    &&& file.mine_attempts == standard.mine_attempts
}

impl Default for RunConfigFile {
    fn default() -> (r: Self)
        ensures
            is_standard_file(r),
    {
        let standard = RunConfig::default();
        let mut listen: Vec<SocketText> = Vec::new();
        listen.push(
            SocketText {
                text: String::from_str("[::]:5555"),
                parsed: Ok(standard.listen_addrs[0]),
            },
        );
        RunConfigFile {
            db_path: standard.db_path,
            listen_addr: OneOrMany::Many(listen),
            rpc_addr: SocketText {
                text: String::from_str("127.0.0.1:6666"),
                parsed: Ok(standard.rpc_addr),
            },
            peers: Vec::new(),
            peers_file: standard.peers_file,
            gateway_url: None,
            public_addr: None,
            gateway_heartbeat_secs: standard.gateway_heartbeat,
            shutdown_file: standard.shutdown_file,
            max_peers: standard.max_peers,
            min_relay_fee: Some(standard.min_relay_fee),
            market_fee: Some(standard.market_fee),
            low_fee_expiry_secs: Some(standard.low_fee_expiry),
            mempool_expiry_secs: Some(standard.mempool_expiry),
            wallet: None,
            miner_address: None,
            miner_secret_key: None,
            miner_min_fee_rate: None,
            mine: false,
            mine_interval_secs: standard.mine_interval,
            mine_attempts: standard.mine_attempts,
        }
    }
}

/// A file that spells the standard configuration out changes nothing.
pub proof fn standard_files_change_nothing(file: RunConfigFile)
    requires
        is_standard_file(file),
    ensures
        overlaid(default_config(), file) == Ok::<ConfigModel, Seq<char>>(default_config()),
{
    let listen = file.listen_addr.items();
    assert(listen.drop_last() =~= Seq::<SocketText>::empty());
    reveal_with_fuel(sockets_of, 3);
    assert(file.peers@ =~= Seq::<SocketText>::empty());
    match overlaid(default_config(), file) {
        Ok(config) => {
            assert(config.listen_addrs =~= default_config().listen_addrs);
            assert(config.peers =~= default_config().peers);
            assert(config.public_addrs =~= default_config().public_addrs);
            assert(config =~= default_config());
        },
        Err(_) => {},
    }
}

/// Reads the configuration of a run from an optional file and the arguments. White space around an
/// argument does not count.
pub fn parse(args: Vec<RunArg>, file: Option<RunConfigFile>) -> (r: Result<RunConfig, String>)
    ensures
        exists|trimmed: Seq<RunArg>| #[trigger]
            are_trimmed(trimmed, args@) && run_config(trimmed, file) == (match r {
                Ok(config) => Ok::<ConfigModel, Seq<char>>(config@),
                Err(error) => Err::<ConfigModel, Seq<char>>(error@),
            }),
{
    let mut trimmed = args;
    let mut i: usize = 0;
    while i < trimmed.len()
        invariant
            i <= trimmed@.len(),
            trimmed@.len() == args@.len(),
            forall|j: int| 0 <= j < i ==> is_trimmed_arg(#[trigger] trimmed@[j], args@[j]),
            forall|j: int| i <= j < args@.len() ==> #[trigger] trimmed@[j] == args@[j],
        decreases trimmed@.len() - i,
    {
        let text = trim_text(trimmed[i].text.as_str());
        trimmed[i].text = text;
        i = i + 1;
    }
    assert(are_trimmed(trimmed@, args@));
    parse_trimmed(&trimmed, file)
}

/// Reads the configuration of a run from an optional file and arguments without white space around
/// them.
pub fn parse_trimmed(args: &Vec<RunArg>, file: Option<RunConfigFile>) -> (r: Result<
    RunConfig,
    String,
>)
    ensures
        match r {
            Ok(config) => run_config(args@, file) == Ok::<ConfigModel, Seq<char>>(config@),
            Err(error) => run_config(args@, file) == Err::<ConfigModel, Seq<char>>(error@),
        },
{
    let mut config = RunConfig::default();
    let ghost given = file;
    match file {
        Some(file) => {
            config =
            match apply_file(config, file) {
                Ok(config) => config,
                Err(error) => {
                    return Err(error);
                },
            };
        },
        None => {},
    }
    let mut state = Reading { config, listen_overridden: false, public_overridden: false };
    let ghost whole = read_all(args@, 0, state@);
    let mut index: usize = 0;
    while index < args.len()
        invariant
            index <= args@.len() + 1,
            whole == read_all(args@, index as int, state@),
            run_config(args@, given) == (match whole {
                Err(error) => Err::<ConfigModel, Seq<char>>(error),
                Ok(state) => Ok::<ConfigModel, Seq<char>>(finished(state.config)),
            }),
            given == file,
        decreases args@.len() + 1 - index,
    {
        assert(index < args.len());
        match read_arg(args, index, &mut state) {
            Ok(used) => {
                index = index.saturating_add(used);
            },
            Err(error) => {
                return Err(error);
            },
        }
    }
    let mut config = state.config;
    let ghost read = config@;
    dedupe(&mut config.listen_addrs);
    dedupe(&mut config.public_addrs);
    normalize(&mut config);
    assert(config@ =~= finished(read));
    Ok(config)
}

/// Takes white space away from both ends of every argument.
pub fn trim_args(args: &Vec<String>) -> (r: Vec<String>)
    ensures
        r@.len() == args@.len(),
        forall|i: int|
            0 <= i < r@.len() ==> trims_to(args@[i]@, (#[trigger] r@[i])@),
{
    let mut list: Vec<String> = Vec::new();
    let mut i: usize = 0;
    while i < args.len()
        invariant
            i <= args@.len(),
            list@.len() == i,
            forall|j: int|
                0 <= j < i ==> trims_to(args@[j]@, (#[trigger] list@[j])@),
        decreases args@.len() - i,
    {
        list.push(trim_text(args[i].as_str()));
        i = i + 1;
    }
    list
}

/// The `i`th argument is the option that names a configuration file, and a value follows.
pub open spec fn names_config(args: Seq<String>, i: int) -> bool {
    0 <= i && i + 1 < args.len() && args[i]@ == "--config"@
}

/// The value of the first option that names a configuration file.
pub fn config_path_arg(args: &Vec<String>) -> (r: Option<String>)
    ensures
        match r {
            Some(path) => exists|i: int| #[trigger]
                names_config(args@, i) && path@ == args@[i + 1]@ && forall|j: int|
                0 <= j < i ==> !#[trigger] names_config(args@, j),
            None => forall|i: int| !#[trigger] names_config(args@, i),
        },
{
    let mut i: usize = 0;
    while i < args.len() && i + 1 < args.len()
        invariant
            i <= args@.len(),
            forall|j: int| 0 <= j < i ==> !#[trigger] names_config(args@, j),
        decreases args@.len() - i,
    {
        if same_text(args[i].as_str(), "--config") {
            assert(names_config(args@, i as int));
            return Some(args[i + 1].clone());
        }
        i = i + 1;
    }
    None
}

/// The path of the configuration file: the one that is named, or the standard one.
pub fn config_path(args: &Vec<String>) -> (r: String)
    ensures
        (exists|i: int| #[trigger] names_config(args@, i)) ==> exists|i: int| #[trigger]
            names_config(args@, i) && r@ == args@[i + 1]@ && forall|j: int|
            0 <= j < i ==> !#[trigger] names_config(args@, j),
        (forall|i: int| !#[trigger] names_config(args@, i)) ==> r@ == "./data/paqus/node.json"@,
{
    match config_path_arg(args) {
        Some(path) => path,
        None => String::from_str("./data/paqus/node.json"),
    }
}

/// What a wallet file says, with what its address reads as.
#[derive(Debug, PartialEq, Eq)]
pub struct WalletFields {
    pub version: u8,
    /// How the key is protected; a wallet without protection names nothing.
    pub kdf: Option<String>,
    pub address: Option<Address>,
}

/// A wallet of a known kind.
pub open spec fn known_wallet(wallet: WalletFields) -> bool {
    wallet.version == 1 && match wallet.kdf {
        Some(kdf) => kdf@ == "argon2id"@,
        None => true,
    }
}

/// The address that a wallet mines for.
pub fn wallet_address(wallet: &WalletFields, path: &str) -> (r: Result<Address, String>)
    ensures
        outcome_of(r) == (if !known_wallet(*wallet) {
            Err::<Address, Seq<char>>("unsupported encrypted mining wallet `"@ + path@ + "`"@)
        } else {
            match wallet.address {
                Some(address) => Ok::<Address, Seq<char>>(address),
                None => Err::<Address, Seq<char>>(
                    "invalid address in mining wallet `"@ + path@ + "`"@,
                ),
            }
        }),
{
    let known = wallet.version == 1 && match &wallet.kdf {
        Some(kdf) => same_text(kdf.as_str(), "argon2id"),
        None => true,
    };
    if !known {
        let mut text = String::from_str("unsupported encrypted mining wallet `");
        text.append(path);
        text.append("`");
        return Err(text);
    }
    match wallet.address {
        Some(address) => Ok(address),
        None => {
            let mut text = String::from_str("invalid address in mining wallet `");
            text.append(path);
            text.append("`");
            Err(text)
        },
    }
}

/// Joins the texts of socket addresses by commas.
pub open spec fn comma_joined(texts: Seq<String>) -> Seq<char>
    decreases texts.len(),
{
    if texts.len() == 0 {
        Seq::empty()
    } else if texts.len() == 1 {
        texts[0]@
    } else {
        comma_joined(texts.drop_last()) + ","@ + texts.last()@
    }
}

/// The texts of socket addresses, separated by commas.
pub fn format_socket_addrs(texts: &Vec<String>) -> (r: String)
    ensures
        r@ == comma_joined(texts@),
{
    let mut joined = String::new();
    let mut i: usize = 0;
    assert(texts@.take(0) =~= Seq::<String>::empty());
    while i < texts.len()
        invariant
            i <= texts@.len(),
            joined@ == comma_joined(texts@.take(i as int)),
        decreases texts@.len() - i,
    {
        proof {
            assert(texts@.take(i + 1).drop_last() =~= texts@.take(i as int));
            assert(texts@.take(i + 1).last() == texts@[i as int]);
        }
        let ghost before = joined@;
        if i > 0 {
            joined.append(",");
        }
        joined.append(texts[i].as_str());
        assert(joined@ =~= comma_joined(texts@.take(i + 1)));
        i = i + 1;
    }
    assert(texts@.take(i as int) =~= texts@);
    joined
}

} // verus!
