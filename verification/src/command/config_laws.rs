//! What an option, a file and a finished configuration mean, field by field.
use crate::command::config::{
    default_config, finished, flag_named, miner_of, overlaid, read_all, read_one, run_config,
    sockets_of, ConfigModel, OneOrMany, ReadState, RunArg, RunConfigFile, RunFlag, SocketText,
};
use crate::ids::Address;
use crate::sync::peer::{dedupe_keeps_each_once, deduped, SocketAddr};
use crate::text::{digits_value, spells_u64, unsigned_part};
use vstd::prelude::*;

verus! {

/// A list of texts is a list of addresses exactly if each text is one; the addresses then are those of
/// the texts, one for one.
pub proof fn every_text_is_read_as_an_address(entries: Seq<SocketText>, label: Seq<char>)
    ensures
        sockets_of(entries, label) is Ok <==> forall|i: int|
            0 <= i < entries.len() ==> (#[trigger] entries[i]).parsed is Ok,
        sockets_of(entries, label) is Ok ==> {
            let addrs = sockets_of(entries, label)->Ok_0;
            &&& addrs.len() == entries.len()
            &&& forall|i: int|
                0 <= i < entries.len() ==> #[trigger] addrs[i] == entries[i].parsed->Ok_0
        },
    decreases entries.len(),
{
    if entries.len() > 0 {
        let shorter = entries.drop_last();
        every_text_is_read_as_an_address(shorter, label);
        if sockets_of(entries, label) is Ok {
            let before = sockets_of(shorter, label)->Ok_0;
            let addrs = sockets_of(entries, label)->Ok_0;
            assert forall|i: int| 0 <= i < entries.len() implies (
            #[trigger] entries[i]).parsed is Ok by {
                if i < shorter.len() {
                    assert(shorter[i].parsed is Ok);
                }
            }
            assert forall|i: int| 0 <= i < entries.len() implies #[trigger] addrs[i]
                == entries[i].parsed->Ok_0 by {
                if i < shorter.len() {
                    assert(before[i] == shorter[i].parsed->Ok_0);
                }
            }
        }
        if forall|i: int| 0 <= i < entries.len() ==> (#[trigger] entries[i]).parsed is Ok {
            assert forall|i: int| 0 <= i < shorter.len() implies (
            #[trigger] shorter[i]).parsed is Ok by {
                assert(entries[i].parsed is Ok);
            }
            assert(entries[entries.len() - 1].parsed is Ok);
        }
    }
}

/// An address goes before a wallet, and a wallet before the miner that was set already; both must be
/// right where they are given.
pub proof fn addresses_go_before_wallets(
    before: Address,
    wallet: Option<Result<Address, String>>,
    miner: Option<Result<Address, String>>,
)
    ensures
        ({
            let r = miner_of(before, wallet, miner);
            let bad_wallet = wallet is Some && wallet->Some_0 is Err;
            let bad_miner = miner is Some && miner->Some_0 is Err;
            &&& r is Err <==> bad_wallet || bad_miner
            &&& r is Ok && miner is Some ==> r->Ok_0 == miner->Some_0->Ok_0
            &&& r is Ok && miner is None && wallet is Some ==> r->Ok_0 == wallet->Some_0->Ok_0
            &&& r is Ok && miner is None && wallet is None ==> r->Ok_0 == before
        }),
{
}

/// All texts of a list are addresses.
pub open spec fn all_addresses(entries: Seq<SocketText>) -> bool {
    forall|i: int| 0 <= i < entries.len() ==> (#[trigger] entries[i]).parsed is Ok
}

/// The entries of one or many.
pub open spec fn entries_of(entries: OneOrMany<SocketText>) -> Seq<SocketText> {
    match entries {
        OneOrMany::One(entry) => Seq::empty().push(entry),
        OneOrMany::Many(list) => list@,
    }
}

/// A file is accepted exactly if everything in it that stands for an address or a key is one.
pub open spec fn is_readable(file: RunConfigFile) -> bool {
    &&& all_addresses(entries_of(file.listen_addr))
    &&& file.rpc_addr.parsed is Ok
    &&& all_addresses(file.peers@)
    &&& file.public_addr is Some ==> all_addresses(entries_of(file.public_addr->Some_0))
    &&& !(file.wallet is Some && file.wallet->Some_0 is Err)
    &&& !(file.miner_address is Some && file.miner_address->Some_0 is Err)
    &&& !(file.miner_secret_key is Some && file.miner_secret_key->Some_0 is Err)
}

/// Addresses are what a list of texts was read as.
pub open spec fn are_read_from(addrs: Seq<SocketAddr>, entries: Seq<SocketText>) -> bool {
    &&& addrs.len() == entries.len()
    &&& forall|i: int| 0 <= i < entries.len() ==> #[trigger] addrs[i] == entries[i].parsed->Ok_0
}

/// A file that can be read sets everything that it says; what it leaves open stays as it was. Limits
/// and times of zero count as one.
pub proof fn files_set_what_they_say(config: ConfigModel, file: RunConfigFile)
    ensures
        overlaid(config, file) is Ok <==> is_readable(file),
        overlaid(config, file) is Ok ==> {
            let after = overlaid(config, file)->Ok_0;
            &&& after.db_path == file.db_path@
            &&& are_read_from(after.listen_addrs, entries_of(file.listen_addr))
            &&& after.rpc_addr == file.rpc_addr.parsed->Ok_0
            &&& are_read_from(after.peers, file.peers@)
            &&& file.public_addr is None ==> after.public_addrs.len() == 0
            &&& file.public_addr is Some ==> are_read_from(
                after.public_addrs,
                entries_of(file.public_addr->Some_0),
            )
            &&& file.peers_file is Some <==> after.peers_file is Some
            &&& file.peers_file is Some ==> after.peers_file->Some_0 == file.peers_file->Some_0@
            &&& file.gateway_url is Some <==> after.gateway_url is Some
            &&& file.gateway_url is Some ==> after.gateway_url->Some_0 == file.gateway_url->Some_0@
            &&& after.shutdown_file == file.shutdown_file@
            &&& file.gateway_heartbeat_secs > 0 ==> after.gateway_heartbeat
                == file.gateway_heartbeat_secs
            &&& file.gateway_heartbeat_secs == 0 ==> after.gateway_heartbeat == 1
            &&& file.max_peers > 0 ==> after.max_peers == file.max_peers
            &&& file.max_peers == 0 ==> after.max_peers == 1
        },
{
    lemma_items(file.listen_addr);
    every_text_is_read_as_an_address(file.listen_addr.items(), "listen_addr"@);
    every_text_is_read_as_an_address(file.peers@, "peer"@);
    if file.public_addr is Some {
        lemma_items(file.public_addr->Some_0);
        every_text_is_read_as_an_address(file.public_addr->Some_0.items(), "public_addr"@);
    }
    addresses_go_before_wallets(config.miner_address, file.wallet, file.miner_address);
}

proof fn lemma_items(entries: OneOrMany<SocketText>)
    ensures
        entries.items() == entries_of(entries),
{
    assert(entries.items() =~= entries_of(entries));
}

/// A file that can be read sets fees, lifetimes and mining as it says; a fee, a lifetime or a key that
/// it leaves open stays as it was.
pub proof fn files_set_fees_and_mining(config: ConfigModel, file: RunConfigFile)
    requires
        overlaid(config, file) is Ok,
    ensures
        ({
            let after = overlaid(config, file)->Ok_0;
            &&& file.min_relay_fee is Some && file.min_relay_fee->Some_0 >= 1
                ==> after.min_relay_fee == file.min_relay_fee->Some_0
            &&& file.min_relay_fee is Some && file.min_relay_fee->Some_0 == 0
                ==> after.min_relay_fee == 1
            &&& file.min_relay_fee is None && config.min_relay_fee >= 1 ==> after.min_relay_fee
                == config.min_relay_fee
            &&& file.market_fee is Some ==> after.market_fee == file.market_fee->Some_0
            &&& file.market_fee is None ==> after.market_fee == config.market_fee
            &&& file.low_fee_expiry_secs is Some && file.low_fee_expiry_secs->Some_0 > 0
                ==> after.low_fee_expiry == file.low_fee_expiry_secs->Some_0
            &&& file.low_fee_expiry_secs is Some && file.low_fee_expiry_secs->Some_0 == 0
                ==> after.low_fee_expiry == 1
            &&& file.low_fee_expiry_secs is None ==> after.low_fee_expiry == config.low_fee_expiry
            &&& file.mempool_expiry_secs is Some && file.mempool_expiry_secs->Some_0 > 0
                ==> after.mempool_expiry == file.mempool_expiry_secs->Some_0
            &&& file.mempool_expiry_secs is Some && file.mempool_expiry_secs->Some_0 == 0
                ==> after.mempool_expiry == 1
            &&& file.mempool_expiry_secs is None ==> after.mempool_expiry == config.mempool_expiry
            &&& file.miner_address is Some ==> after.miner_address
                == file.miner_address->Some_0->Ok_0
            &&& file.miner_address is None && file.wallet is Some ==> after.miner_address
                == file.wallet->Some_0->Ok_0
            &&& file.miner_address is None && file.wallet is None ==> after.miner_address
                == config.miner_address
            &&& file.miner_secret_key is Some ==> after.miner_secret_key == Some(
                file.miner_secret_key->Some_0->Ok_0@,
            )
            &&& file.miner_secret_key is None ==> after.miner_secret_key == config.miner_secret_key
            &&& after.miner_min_fee_rate == file.miner_min_fee_rate
            &&& after.mine == file.mine
            &&& after.mine_interval == file.mine_interval_secs
            &&& after.mine_attempts == file.mine_attempts
        }),
{
}

/// Every option has its name, and two of them a second one.
pub proof fn options_have_their_names(text: Seq<char>)
    ensures
        flag_named("--config"@) == RunFlag::Config,
        flag_named("--db"@) == RunFlag::Db,
        flag_named("--db-path"@) == RunFlag::Db,
        flag_named("--listen"@) == RunFlag::Listen,
        flag_named("--rpc-listen"@) == RunFlag::RpcListen,
        flag_named("--peer"@) == RunFlag::Peer,
        flag_named("--peers-file"@) == RunFlag::PeersFile,
        flag_named("--gateway"@) == RunFlag::Gateway,
        flag_named("--gateway-url"@) == RunFlag::Gateway,
        flag_named("--public-addr"@) == RunFlag::PublicAddr,
        flag_named("--gateway-heartbeat-secs"@) == RunFlag::GatewayHeartbeat,
        flag_named("--shutdown-file"@) == RunFlag::ShutdownFile,
        flag_named("--max-peers"@) == RunFlag::MaxPeers,
        flag_named("--min-relay-fee"@) == RunFlag::MinRelayFee,
        flag_named("--market-fee"@) == RunFlag::MarketFee,
        flag_named("--low-fee-expiry-secs"@) == RunFlag::LowFeeExpiry,
        flag_named("--mempool-expiry-secs"@) == RunFlag::MempoolExpiry,
        flag_named("--miner"@) == RunFlag::Miner,
        flag_named("--wallet"@) == RunFlag::Wallet,
        flag_named("--miner-secret-key"@) == RunFlag::MinerSecretKey,
        flag_named("--miner-min-fee-rate"@) == RunFlag::MinerMinFeeRate,
        flag_named("--premine"@) == RunFlag::Premine,
        flag_named("--mine"@) == RunFlag::Mine,
        flag_named("--mine-interval-secs"@) == RunFlag::MineInterval,
        flag_named("--mine-attempts"@) == RunFlag::MineAttempts,
        text.len() == 0 || text[0] != '-' ==> flag_named(text) == RunFlag::Other,
{
    reveal_strlit("--config");
    reveal_strlit("--db");
    reveal_strlit("--db-path");
    reveal_strlit("--listen");
    reveal_strlit("--rpc-listen");
    reveal_strlit("--peer");
    reveal_strlit("--peers-file");
    reveal_strlit("--gateway");
    reveal_strlit("--gateway-url");
    reveal_strlit("--public-addr");
    reveal_strlit("--gateway-heartbeat-secs");
    reveal_strlit("--shutdown-file");
    reveal_strlit("--max-peers");
    reveal_strlit("--min-relay-fee");
    reveal_strlit("--market-fee");
    reveal_strlit("--low-fee-expiry-secs");
    reveal_strlit("--mempool-expiry-secs");
    reveal_strlit("--miner");
    reveal_strlit("--wallet");
    reveal_strlit("--miner-secret-key");
    reveal_strlit("--miner-min-fee-rate");
    reveal_strlit("--premine");
    reveal_strlit("--mine");
    reveal_strlit("--mine-interval-secs");
    reveal_strlit("--mine-attempts");
    assert("--db"@.len() == 4);
    assert("--peer"@.len() == 6 && "--peer"@[2] == 'p');
    assert("--mine"@.len() == 6 && "--mine"@[2] == 'm');
    assert("--miner"@.len() == 7);
    assert("--config"@.len() == 8 && "--config"@[2] == 'c');
    assert("--listen"@.len() == 8 && "--listen"@[2] == 'l');
    assert("--wallet"@.len() == 8 && "--wallet"@[2] == 'w');
    assert("--db-path"@.len() == 9 && "--db-path"@[2] == 'd');
    assert("--gateway"@.len() == 9 && "--gateway"@[2] == 'g');
    assert("--premine"@.len() == 9 && "--premine"@[2] == 'p');
    assert("--max-peers"@.len() == 11);
    assert("--rpc-listen"@.len() == 12 && "--rpc-listen"@[2] == 'r');
    assert("--peers-file"@.len() == 12 && "--peers-file"@[2] == 'p');
    assert("--market-fee"@.len() == 12 && "--market-fee"@[2] == 'm');
    assert("--gateway-url"@.len() == 13 && "--gateway-url"@[2] == 'g');
    assert("--public-addr"@.len() == 13 && "--public-addr"@[2] == 'p');
    assert("--shutdown-file"@.len() == 15 && "--shutdown-file"@[5] == 't');
    assert("--min-relay-fee"@.len() == 15 && "--min-relay-fee"@[5] == '-');
    assert("--mine-attempts"@.len() == 15 && "--mine-attempts"@[5] == 'e');
    assert("--miner-secret-key"@.len() == 18);
    assert("--miner-min-fee-rate"@.len() == 20 && "--miner-min-fee-rate"@[6] == 'r');
    assert("--mine-interval-secs"@.len() == 20 && "--mine-interval-secs"@[6] == '-');
    assert("--low-fee-expiry-secs"@.len() == 21 && "--low-fee-expiry-secs"@[2] == 'l');
    assert("--mempool-expiry-secs"@.len() == 21 && "--mempool-expiry-secs"@[2] == 'm');
    assert("--gateway-heartbeat-secs"@.len() == 24);
    assert("--config"@[0] == '-');
}

/// The number that a text spells.
pub open spec fn number_in(arg: RunArg) -> u64 {
    digits_value(unsigned_part(arg.text@)) as u64
}

/// An option that wants a number is refused without one. Otherwise it sets its own field to the number,
/// uses two arguments up and touches nothing else; a limit or a time of zero counts as one.
pub proof fn numbers_set_their_own_field(args: Seq<RunArg>, i: int, state: ReadState)
    requires
        0 <= i < args.len(),
    ensures
        ({
            let flag = flag_named(args[i].text@);
            let wants_number = flag == RunFlag::GatewayHeartbeat || flag == RunFlag::MaxPeers || flag
                == RunFlag::MinRelayFee || flag == RunFlag::MarketFee || flag
                == RunFlag::LowFeeExpiry || flag == RunFlag::MempoolExpiry || flag
                == RunFlag::MinerMinFeeRate || flag == RunFlag::MineInterval || flag
                == RunFlag::MineAttempts;
            let given = i + 1 < args.len() && spells_u64(args[i + 1].text@);
            let n = number_in(args[i + 1]);
            let one = if n == 0 {
                1u64
            } else {
                n
            };
            let r = read_one(args, i, state);
            let after = r->Ok_0.0;
            let base = state.config;
            &&& wants_number ==> (r is Ok <==> given)
            &&& wants_number && given ==> r->Ok_0.1 == 2 && after.listen_overridden
                == state.listen_overridden && after.public_overridden == state.public_overridden
            &&& flag == RunFlag::GatewayHeartbeat && given ==> after.config == (ConfigModel {
                gateway_heartbeat: one,
                ..base
            })
            &&& flag == RunFlag::MaxPeers && given && n <= usize::MAX ==> after.config
                == (ConfigModel { max_peers: one as usize, ..base })
            &&& flag == RunFlag::MinRelayFee && given ==> after.config == (ConfigModel {
                min_relay_fee: one,
                ..base
            })
            &&& flag == RunFlag::MarketFee && given ==> after.config == (ConfigModel {
                market_fee: n,
                ..base
            })
            &&& flag == RunFlag::LowFeeExpiry && given ==> after.config == (ConfigModel {
                low_fee_expiry: one,
                ..base
            })
            &&& flag == RunFlag::MempoolExpiry && given ==> after.config == (ConfigModel {
                mempool_expiry: one,
                ..base
            })
            &&& flag == RunFlag::MinerMinFeeRate && given ==> after.config == (ConfigModel {
                miner_min_fee_rate: Some(n),
                ..base
            })
            &&& flag == RunFlag::MineInterval && given ==> after.config == (ConfigModel {
                mine_interval: n,
                ..base
            })
            &&& flag == RunFlag::MineAttempts && given ==> after.config == (ConfigModel {
                mine_attempts: n,
                ..base
            })
        }),
{
}

/// An option that wants a text, an address or a key is refused without one. Otherwise it sets its own
/// field to it, uses two arguments up and touches nothing else.
pub proof fn values_set_their_own_field(args: Seq<RunArg>, i: int, state: ReadState)
    requires
        0 <= i < args.len(),
    ensures
        ({
            let flag = flag_named(args[i].text@);
            let wants_text = flag == RunFlag::Config || flag == RunFlag::Db || flag
                == RunFlag::PeersFile || flag == RunFlag::Gateway || flag == RunFlag::ShutdownFile;
            let follows = i + 1 < args.len();
            let next = args[i + 1];
            let r = read_one(args, i, state);
            let after = r->Ok_0.0.config;
            let base = state.config;
            &&& wants_text ==> (r is Ok <==> follows)
            &&& flag == RunFlag::RpcListen ==> (r is Ok <==> follows && next.socket is Ok)
            &&& flag == RunFlag::Miner ==> (r is Ok <==> follows && next.address is Ok)
            &&& flag == RunFlag::Wallet ==> (r is Ok <==> follows && next.wallet is Ok)
            &&& flag == RunFlag::MinerSecretKey ==> (r is Ok <==> follows && next.secret_key is Ok)
            &&& (wants_text || flag == RunFlag::RpcListen || flag == RunFlag::Miner || flag
                == RunFlag::Wallet || flag == RunFlag::MinerSecretKey) && r is Ok ==> r->Ok_0.1 == 2
                && r->Ok_0.0.listen_overridden == state.listen_overridden
                && r->Ok_0.0.public_overridden == state.public_overridden
            &&& flag == RunFlag::Config && r is Ok ==> after == base
            &&& flag == RunFlag::Db && r is Ok ==> after == (ConfigModel {
                db_path: next.text@,
                ..base
            })
            &&& flag == RunFlag::PeersFile && r is Ok ==> after == (ConfigModel {
                peers_file: Some(next.text@),
                ..base
            })
            &&& flag == RunFlag::Gateway && r is Ok ==> after == (ConfigModel {
                gateway_url: Some(next.text@),
                ..base
            })
            &&& flag == RunFlag::ShutdownFile && r is Ok ==> after == (ConfigModel {
                shutdown_file: next.text@,
                ..base
            })
            &&& flag == RunFlag::RpcListen && r is Ok ==> after == (ConfigModel {
                rpc_addr: next.socket->Ok_0,
                ..base
            })
            &&& flag == RunFlag::Miner && r is Ok ==> after == (ConfigModel {
                miner_address: next.address->Ok_0,
                ..base
            })
            &&& flag == RunFlag::Wallet && r is Ok ==> after == (ConfigModel {
                miner_address: next.wallet->Ok_0,
                ..base
            })
            &&& flag == RunFlag::MinerSecretKey && r is Ok ==> after == (ConfigModel {
                miner_secret_key: Some(next.secret_key->Ok_0@),
                ..base
            })
        }),
{
}

/// The first listen or public address among the arguments replaces those of the configuration, and
/// each further one joins it; a peer always joins those there are. To ask for mining uses one argument
/// up, a premine is refused, and a bare text is the database where none was set.
pub proof fn addresses_join_the_list(args: Seq<RunArg>, i: int, state: ReadState)
    requires
        0 <= i < args.len(),
    ensures
        ({
            let flag = flag_named(args[i].text@);
            let text = args[i].text@;
            let given = i + 1 < args.len() && args[i + 1].socket is Ok;
            let addr = args[i + 1].socket->Ok_0;
            let r = read_one(args, i, state);
            let after = r->Ok_0.0;
            let base = state.config;
            &&& flag == RunFlag::Listen || flag == RunFlag::PublicAddr || flag == RunFlag::Peer ==> (
            r is Ok <==> given)
            &&& flag == RunFlag::Listen && given ==> {
                &&& r->Ok_0.1 == 2
                &&& after.listen_overridden
                &&& after.public_overridden == state.public_overridden
                &&& !state.listen_overridden ==> after.config.listen_addrs.len() == 1
                &&& state.listen_overridden ==> after.config.listen_addrs.len()
                    == base.listen_addrs.len() + 1 && after.config.listen_addrs.drop_last()
                    == base.listen_addrs
                &&& after.config.listen_addrs.last() == addr
                &&& after.config == (ConfigModel {
                    listen_addrs: after.config.listen_addrs,
                    ..base
                })
            }
            &&& flag == RunFlag::PublicAddr && given ==> {
                &&& r->Ok_0.1 == 2
                &&& after.public_overridden
                &&& after.listen_overridden == state.listen_overridden
                &&& !state.public_overridden ==> after.config.public_addrs.len() == 1
                &&& state.public_overridden ==> after.config.public_addrs.len()
                    == base.public_addrs.len() + 1 && after.config.public_addrs.drop_last()
                    == base.public_addrs
                &&& after.config.public_addrs.last() == addr
                &&& after.config == (ConfigModel {
                    public_addrs: after.config.public_addrs,
                    ..base
                })
            }
            &&& flag == RunFlag::Peer && given ==> {
                &&& r->Ok_0.1 == 2
                &&& after.listen_overridden == state.listen_overridden
                &&& after.public_overridden == state.public_overridden
                &&& after.config.peers.len() == base.peers.len() + 1
                &&& after.config.peers.drop_last() == base.peers
                &&& after.config.peers.last() == addr
                &&& after.config == (ConfigModel { peers: after.config.peers, ..base })
            }
            &&& flag == RunFlag::Mine ==> r == Ok::<(ReadState, int), Seq<char>>(
                (ReadState { config: ConfigModel { mine: true, ..base }, ..state }, 1),
            )
            &&& flag == RunFlag::Premine ==> r is Err
            &&& flag == RunFlag::Other ==> (r is Ok <==> !(text.len() > 0 && text[0] == '-')
                && base.db_path == "./data/paqus"@)
            &&& flag == RunFlag::Other && r is Ok ==> r->Ok_0.1 == 1 && after.config
                == (ConfigModel { db_path: text, ..base }) && after.listen_overridden
                == state.listen_overridden && after.public_overridden == state.public_overridden
        }),
{
    let base = state.config;
    let addr = args[i + 1].socket->Ok_0;
    assert(base.listen_addrs.push(addr).drop_last() =~= base.listen_addrs);
    assert(base.public_addrs.push(addr).drop_last() =~= base.public_addrs);
    assert(base.peers.push(addr).drop_last() =~= base.peers);
}

/// Arguments are read from the first to the last, each on top of what those before it made; the first
/// that is refused ends it.
pub proof fn arguments_are_read_in_turn(args: Seq<RunArg>, i: int, state: ReadState)
    requires
        0 <= i <= args.len(),
    ensures
        i == args.len() ==> read_all(args, i, state) == Ok::<ReadState, Seq<char>>(state),
        i < args.len() && read_one(args, i, state) is Err ==> read_all(args, i, state) is Err
            && read_all(args, i, state)->Err_0 == read_one(args, i, state)->Err_0,
        i < args.len() && read_one(args, i, state) is Ok ==> 1 <= read_one(
            args,
            i,
            state,
        )->Ok_0.1 <= 2 && i + read_one(args, i, state)->Ok_0.1 <= args.len() && read_all(
            args,
            i,
            state,
        ) == read_all(
            args,
            i + read_one(args, i, state)->Ok_0.1,
            read_one(args, i, state)->Ok_0.0,
        ),
{
}

/// A finished configuration raises the fees and cuts the lifetime of cheap transactions only where they
/// do not fit together, drops repeated addresses of its own, and leaves everything else as it is.
pub proof fn finishing_touches_only_what_does_not_fit(config: ConfigModel)
    ensures
        ({
            let after = finished(config);
            &&& config.min_relay_fee >= 1 ==> after.min_relay_fee == config.min_relay_fee
            &&& config.min_relay_fee == 0 ==> after.min_relay_fee == 1
            &&& config.market_fee >= after.min_relay_fee ==> after.market_fee == config.market_fee
            &&& config.market_fee < after.min_relay_fee ==> after.market_fee == after.min_relay_fee
            &&& config.low_fee_expiry <= config.mempool_expiry ==> after.low_fee_expiry
                == config.low_fee_expiry
            &&& config.low_fee_expiry > config.mempool_expiry ==> after.low_fee_expiry
                == config.mempool_expiry
            &&& forall|addr: SocketAddr| #[trigger]
                after.listen_addrs.contains(addr) <==> config.listen_addrs.contains(addr)
            &&& forall|addr: SocketAddr| #[trigger]
                after.public_addrs.contains(addr) <==> config.public_addrs.contains(addr)
            &&& after.listen_addrs.no_duplicates()
            &&& after.public_addrs.no_duplicates()
            &&& config.listen_addrs.no_duplicates() ==> after.listen_addrs == config.listen_addrs
            &&& config.public_addrs.no_duplicates() ==> after.public_addrs == config.public_addrs
            &&& after == (ConfigModel {
                min_relay_fee: after.min_relay_fee,
                market_fee: after.market_fee,
                low_fee_expiry: after.low_fee_expiry,
                listen_addrs: after.listen_addrs,
                public_addrs: after.public_addrs,
                ..config
            })
        }),
{
    dedupe_keeps_each_once(config.listen_addrs);
    dedupe_keeps_each_once(config.public_addrs);
    if config.listen_addrs.no_duplicates() {
        lemma_nothing_to_drop(config.listen_addrs);
    }
    if config.public_addrs.no_duplicates() {
        lemma_nothing_to_drop(config.public_addrs);
    }
}

proof fn lemma_nothing_to_drop(list: Seq<SocketAddr>)
    requires
        list.no_duplicates(),
    ensures
        deduped(list) == list,
    decreases list.len(),
{
    if list.len() > 0 {
        let shorter = list.drop_last();
        lemma_nothing_to_drop(shorter);
        if shorter.contains(list.last()) {
            let i = shorter.index_of(list.last());
            assert(list[i] == list[list.len() - 1]);
        }
        assert(shorter.push(list.last()) =~= list);
    } else {
        assert(deduped(list) =~= list);
    }
}

/// A run without arguments is what its file makes of the standard configuration, and a run without
/// either is the standard configuration; a file that cannot be read refuses every run.
pub proof fn runs_start_from_the_file(args: Seq<RunArg>, file: RunConfigFile)
    ensures
        args.len() == 0 && overlaid(default_config(), file) is Ok ==> run_config(args, Some(file))
            == Ok::<ConfigModel, Seq<char>>(finished(overlaid(default_config(), file)->Ok_0)),
        overlaid(default_config(), file) is Err ==> run_config(args, Some(file)) is Err,
        args.len() == 0 ==> run_config(args, None) == Ok::<ConfigModel, Seq<char>>(
            finished(default_config()),
        ),
        read_all(
            args,
            0,
            (ReadState {
                config: default_config(),
                listen_overridden: false,
                public_overridden: false,
            }),
        ) is Err ==> run_config(args, None) is Err,
{
}

} // verus!
