use paqus_node::command::config::{
    apply_file, config_path, config_path_arg, dedupe, format_socket_addrs, parse, trim_args,
    wallet_address, OneOrMany, RunArg, RunConfig, RunConfigFile, SocketText, WalletFields,
};
use paqus_node::command::dispatch::{
    default_run_args, node_command, open_failure, run, run_mine_shortcut, Command, NodeCommand,
};
use paqus_node::command::display::{
    format_difficulty, format_hash, pow_target_description, short_hash,
};
use paqus_node::ids::Address;
use paqus_node::sync::peer::SocketAddr;

fn v4(ip: u32, port: u16) -> SocketAddr {
    SocketAddr::V4 { ip, port }
}

fn v6(ip: u128, port: u16) -> SocketAddr {
    SocketAddr::V6 {
        ip,
        port,
        flowinfo: 0,
        scope_id: 0,
    }
}

/// What the socket addresses of these tests read as.
fn read_socket(text: &str) -> Result<SocketAddr, String> {
    match text {
        "0.0.0.0:5555" => Ok(v4(0, 5555)),
        "[::]:5555" => Ok(v6(0, 5555)),
        "127.0.0.1:6666" => Ok(v4(0x7f00_0001, 6666)),
        "[2404:8000:1044:4d8:822b:f9ff:fee2:365]:5555" => {
            Ok(v6(0x2404_8000_1044_04d8_822b_f9ff_fee2_0365, 5555))
        }
        "[2404:8000:1044:4d8:1202:b5ff:feb0:7020]:5555" => {
            Ok(v6(0x2404_8000_1044_04d8_1202_b5ff_feb0_7020, 5555))
        }
        "182.253.148.123:5555" => Ok(v4(0xb6fd_947b, 5555)),
        _ => Err("invalid socket address syntax".to_string()),
    }
}

fn args(values: &[&str]) -> Vec<String> {
    values.iter().map(|value| value.to_string()).collect()
}

fn run_args(values: &[&str]) -> Vec<RunArg> {
    let texts = args(values);
    trim_args(&texts)
        .into_iter()
        .zip(texts)
        .map(|(trimmed, text)| RunArg {
            socket: read_socket(&trimmed),
            address: if trimmed == "miner" {
                Ok(Address([4; 20]))
            } else {
                Err("invalid address".to_string())
            },
            secret_key: if trimmed == "0a0b" {
                Ok(vec![10, 11])
            } else {
                Err("invalid secret key".to_string())
            },
            wallet: if trimmed == "wallet.json" {
                Ok(Address([5; 20]))
            } else {
                Err("no wallet".to_string())
            },
            text,
        })
        .collect()
}

#[test]
fn parse_run_config_accepts_pasted_flags_with_surrounding_spaces() {
    let config = parse(
        run_args(&[
            "--config",
            "/tmp/full-node-missing-test-config.json",
            "./data/paqus",
            " --listen",
            "0.0.0.0:5555",
            " --listen",
            "[::]:5555",
            " --rpc-listen",
            "127.0.0.1:6666",
            " --public-addr",
            "[2404:8000:1044:4d8:822b:f9ff:fee2:365]:5555",
            " --peer",
            "[2404:8000:1044:4d8:1202:b5ff:feb0:7020]:5555",
            " --peer",
            "182.253.148.123:5555",
            " --mine",
            " --mine-attempts",
            "100000",
        ]),
        None,
    )
    .expect("pasted flags should parse");

    assert_eq!(config.db_path, "./data/paqus");
    assert_eq!(config.listen_addrs.len(), 2);
    assert_eq!(config.peers.len(), 2);
    assert_eq!(config.public_addrs.len(), 1);
    assert_eq!(config.rpc_addr, read_socket("127.0.0.1:6666").unwrap());
    assert!(config.mine);
    assert_eq!(config.mine_attempts, 100000);
}

#[test]
fn run_config_defaults_to_local_rpc_without_bootstrap_peer() {
    let config = RunConfig::default();

    assert_eq!(config.rpc_addr, read_socket("127.0.0.1:6666").unwrap());
    assert!(config.peers.is_empty());
}

#[test]
fn mining_reads_address_from_plaintext_wallet() {
    let wallet = WalletFields {
        version: 1,
        kdf: None,
        address: Some(Address([7; 20])),
    };
    assert_eq!(
        wallet_address(&wallet, "wallet.json"),
        Ok(Address([7; 20]))
    );
}

#[test]
fn other_wallets_are_read_or_refused() {
    let known = WalletFields {
        version: 1,
        kdf: Some("argon2id".to_string()),
        address: None,
    };
    assert_eq!(
        wallet_address(&known, "w.json"),
        Err("invalid address in mining wallet `w.json`".to_string())
    );
    let unknown = WalletFields {
        version: 1,
        kdf: Some("scrypt".to_string()),
        address: Some(Address([7; 20])),
    };
    assert_eq!(
        wallet_address(&unknown, "w.json"),
        Err("unsupported encrypted mining wallet `w.json`".to_string())
    );
    let newer = WalletFields {
        version: 2,
        kdf: None,
        address: Some(Address([7; 20])),
    };
    assert!(wallet_address(&newer, "w.json").is_err());
}

#[test]
fn every_flag_finds_its_place() {
    let config = parse(
        run_args(&[
            "--db-path",
            "/db",
            "--peers-file",
            "/peers",
            "--gateway",
            "http://g",
            "--gateway-heartbeat-secs",
            "0",
            "--shutdown-file",
            "/stop",
            "--max-peers",
            "0",
            "--min-relay-fee",
            "0",
            "--market-fee",
            "0",
            "--low-fee-expiry-secs",
            "0",
            "--mempool-expiry-secs",
            "9",
            "--miner",
            "miner",
            "--miner-secret-key",
            "0a0b",
            "--miner-min-fee-rate",
            "6",
            "--mine-interval-secs",
            "8",
            "--mine-attempts",
            "0",
        ]),
        None,
    )
    .unwrap();
    assert_eq!(config.db_path, "/db");
    assert_eq!(config.peers_file, Some("/peers".to_string()));
    assert_eq!(config.gateway_url, Some("http://g".to_string()));
    assert_eq!(config.gateway_heartbeat, 1);
    assert_eq!(config.shutdown_file, "/stop");
    assert_eq!(config.max_peers, 1);
    assert_eq!(config.min_relay_fee, 1);
    assert_eq!(config.market_fee, 1);
    assert_eq!(config.low_fee_expiry, 1);
    assert_eq!(config.mempool_expiry, 9);
    assert_eq!(config.miner_address, Address([4; 20]));
    assert_eq!(config.miner_secret_key, Some(vec![10, 11]));
    assert_eq!(config.miner_min_fee_rate, Some(6));
    assert_eq!(config.mine_interval, 8);
    assert_eq!(config.mine_attempts, 0);
    assert!(!config.mine);
}

#[test]
fn wrong_flags_are_explained() {
    let failure = |values: &[&str]| parse(run_args(values), None).unwrap_err();
    assert_eq!(
        failure(&["--what"]),
        "unknown node run option `--what`"
    );
    assert_eq!(failure(&["--listen"]), "missing value for --listen");
    assert_eq!(
        failure(&["--peer", "nowhere"]),
        "invalid socket address for --peer: invalid socket address syntax"
    );
    assert_eq!(
        failure(&["--mine-attempts", "ten"]),
        "invalid --mine-attempts: invalid digit found in string"
    );
    assert_eq!(
        failure(&["--premine", "x"]),
        "premine address is fixed by protocol and cannot be overridden"
    );
    assert_eq!(failure(&["--miner", "nobody"]), "invalid address");
    assert_eq!(failure(&["--wallet", "none.json"]), "no wallet");
    assert_eq!(
        failure(&["--miner-secret-key", "xyz"]),
        "invalid secret key"
    );
}

#[test]
fn repeated_addresses_count_once() {
    let mut addrs = vec![v4(1, 1), v4(2, 1), v4(1, 1)];
    dedupe(&mut addrs);
    assert_eq!(addrs, vec![v4(1, 1), v4(2, 1)]);
    let config = parse(
        run_args(&["--listen", "0.0.0.0:5555", "--listen", "0.0.0.0:5555"]),
        None,
    )
    .unwrap();
    assert_eq!(config.listen_addrs.len(), 1);
}

fn socket_text(text: &str) -> SocketText {
    SocketText {
        text: text.to_string(),
        parsed: read_socket(text),
    }
}

fn file() -> RunConfigFile {
    RunConfigFile {
        db_path: "/file/db".to_string(),
        listen_addr: OneOrMany::One(socket_text("0.0.0.0:5555")),
        rpc_addr: socket_text("127.0.0.1:6666"),
        peers: vec![socket_text("182.253.148.123:5555")],
        peers_file: None,
        gateway_url: Some("http://gateway".to_string()),
        public_addr: Some(OneOrMany::Many(vec![
            socket_text("[::]:5555"),
            socket_text("[::]:5555"),
        ])),
        gateway_heartbeat_secs: 0,
        shutdown_file: "/file/stop".to_string(),
        max_peers: 5,
        min_relay_fee: Some(3),
        market_fee: None,
        low_fee_expiry_secs: None,
        mempool_expiry_secs: Some(60),
        wallet: None,
        miner_address: Some(Ok(Address([6; 20]))),
        miner_secret_key: None,
        miner_min_fee_rate: None,
        mine: true,
        mine_interval_secs: 4,
        mine_attempts: 50,
    }
}

#[test]
fn a_file_fills_the_configuration() {
    let config = apply_file(RunConfig::default(), file()).unwrap();
    assert_eq!(config.db_path, "/file/db");
    assert_eq!(config.listen_addrs, vec![v4(0, 5555)]);
    assert_eq!(config.peers.len(), 1);
    assert_eq!(config.min_relay_fee, 3);
    assert_eq!(config.mempool_expiry, 60);
    assert_eq!(config.miner_address, Address([6; 20]));
    assert!(config.mine);
    assert_eq!(config.mine_attempts, 50);
}

#[test]
fn a_file_with_a_bad_address_is_refused() {
    let mut bad = file();
    bad.peers = vec![socket_text("nowhere")];
    assert_eq!(
        apply_file(RunConfig::default(), bad),
        Err("invalid peer `nowhere` in config: invalid socket address syntax".to_string())
    );
    let mut rpc = file();
    rpc.rpc_addr = socket_text("nowhere");
    assert_eq!(
        apply_file(RunConfig::default(), rpc),
        Err("invalid rpc_addr in config: invalid socket address syntax".to_string())
    );
}

#[test]
fn arguments_override_the_file() {
    let config = parse(
        run_args(&["--listen", "[::]:5555", "--wallet", "wallet.json"]),
        Some(file()),
    )
    .unwrap();
    assert_eq!(config.listen_addrs, vec![v6(0, 5555)]);
    assert_eq!(config.miner_address, Address([5; 20]));
    assert_eq!(config.public_addrs, vec![v6(0, 5555)]);
}

#[test]
fn one_or_many_values_are_a_list() {
    assert_eq!(OneOrMany::One(3).into_vec(), vec![3]);
    assert_eq!(OneOrMany::Many(vec![3, 4]).into_vec(), vec![3, 4]);
}

#[test]
fn the_configuration_file_is_named_or_standard() {
    assert_eq!(
        config_path_arg(&args(&["--mine", "--config", "a", "--config", "b"])),
        Some("a".to_string())
    );
    assert_eq!(config_path_arg(&args(&["--config"])), None);
    assert_eq!(config_path(&args(&[])), "./data/paqus/node.json");
    assert_eq!(config_path(&args(&["--config", "a"])), "a");
    assert_eq!(
        format_socket_addrs(&args(&["a:1", "b:2"])),
        "a:1,b:2"
    );
}

#[test]
fn commands_are_told_apart() {
    assert_eq!(run(&args(&["--help"])), Ok(Command::Help));
    assert_eq!(run(&args(&["-V"])), Ok(Command::Version));
    assert_eq!(
        run(&args(&["mine", "w"])),
        Ok(Command::Mine(args(&["w"])))
    );
    assert_eq!(
        run(&args(&["node", "info"])),
        Ok(Command::Node(args(&["info"])))
    );
    assert_eq!(
        run(&args(&["fly"])),
        Err("unknown command `fly`. Try `paqusd --help`.".to_string())
    );
}

#[test]
fn node_commands_are_told_apart() {
    assert_eq!(node_command(&args(&["info"])), Ok(NodeCommand::Info));
    assert_eq!(
        node_command(&args(&["init"])),
        Ok(NodeCommand::Init {
            path: "./data/paqus".to_string(),
            miner: None,
        })
    );
    assert_eq!(
        node_command(&args(&["init", "/db", "miner"])),
        Ok(NodeCommand::Init {
            path: "/db".to_string(),
            miner: Some("miner".to_string()),
        })
    );
    assert_eq!(
        node_command(&args(&["init", "/db", "miner", "premine"])),
        Err("premine address is fixed by protocol and cannot be overridden".to_string())
    );
    assert_eq!(
        node_command(&args(&["run", "x"])),
        Ok(NodeCommand::Run(args(&["x"])))
    );
    assert_eq!(
        node_command(&args(&["db", "check"])),
        Ok(NodeCommand::Db(args(&["check"])))
    );
    assert_eq!(
        node_command(&args(&["config"])),
        Ok(NodeCommand::Config {
            path: "./data/paqus/node.json".to_string(),
        })
    );
    assert_eq!(
        node_command(&args(&[])),
        Err("usage: paqus node <info|init|config|run|db> [options]".to_string())
    );
}

#[test]
fn mining_needs_a_wallet() {
    assert_eq!(
        default_run_args(Some("w.json".to_string())),
        args(&["node", "run", "--wallet", "w.json", "--mine"])
    );
    assert_eq!(default_run_args(None), args(&["node", "run"]));
    assert_eq!(
        run_mine_shortcut(&args(&["w.json", "/db"]), None),
        Ok(args(&["/db", "--wallet", "w.json", "--mine"]))
    );
    assert_eq!(
        run_mine_shortcut(&args(&[]), Some("std.json".to_string())),
        Ok(args(&["./data/paqus", "--wallet", "std.json", "--mine"]))
    );
    assert!(run_mine_shortcut(&args(&[]), None).is_err());
}

#[test]
fn foreign_databases_come_with_advice() {
    assert_eq!(
        open_failure("/db", "disk full"),
        "failed to open node storage: disk full"
    );
    let advised = open_failure("/db", "stored block failed validation: genesis");
    assert!(advised.ends_with("`rm -rf /db`"));
}

#[test]
fn hashes_are_shown_in_hexadecimal() {
    assert_eq!(format_hash(Some([0x1f; 32])), "1f".repeat(32));
    assert_eq!(format_hash(None), "none");
    assert_eq!(short_hash(Some([0x1f; 32])), "1f1f1f1f..1f1f1f1f");
    assert_eq!(short_hash(None), "none");
}

#[test]
fn difficulties_are_described() {
    assert_eq!(format_difficulty(Ok(17)), "17");
    assert_eq!(format_difficulty(Err("x".to_string())), "error:x");
    assert_eq!(pow_target_description(0), "disabled_for_test");
    assert_eq!(pow_target_description(16), "hash_prefix_zero_bytes>=2");
    assert_eq!(
        pow_target_description(19),
        "hash_prefix_zero_bytes>=2,next_byte_mask=0xe0,leading_zero_bits>=19"
    );
}

#[test]
fn a_wallet_at_hand_starts_mining() {
    let standard = default_run_args(Some("wallet.json".to_string()));
    let Ok(Command::Node(rest)) = run(&standard) else {
        panic!("not a node command");
    };
    let Ok(NodeCommand::Run(rest)) = node_command(&rest) else {
        panic!("not a run");
    };
    let texts: Vec<&str> = rest.iter().map(String::as_str).collect();
    let config = parse(run_args(&texts), None).unwrap();
    assert!(config.mine);
    assert_eq!(config.miner_address, Address([5; 20]));
    assert!(!RunConfig::default().mine);
}

#[test]
fn fees_and_lifetimes_fit_together() {
    let config = parse(
        run_args(&[
            "--min-relay-fee",
            "9",
            "--market-fee",
            "4",
            "--low-fee-expiry-secs",
            "80",
            "--mempool-expiry-secs",
            "70",
        ]),
        None,
    )
    .unwrap();
    assert_eq!(config.min_relay_fee, 9);
    assert_eq!(config.market_fee, 9);
    assert_eq!(config.low_fee_expiry, 70);
    assert_eq!(config.mempool_expiry, 70);
}

#[test]
fn numbers_are_read_as_they_are_written() {
    for n in [0u64, 10, 18_446_744_073_709_551_615] {
        let text = n.to_string();
        let config = parse(run_args(&["--mine-attempts", &text]), None).unwrap();
        assert_eq!(config.mine_attempts, n);
        let signed = format!("\u{2003}+{text}\t");
        let config = parse(run_args(&["--mine-attempts", &signed]), None).unwrap();
        assert_eq!(config.mine_attempts, n);
    }
    let failure = parse(run_args(&["--mine-attempts", "18446744073709551616"]), None).unwrap_err();
    assert_eq!(
        failure,
        "invalid --mine-attempts: number too large to fit in target type"
    );
}

#[test]
fn white_space_around_arguments_does_not_count() {
    assert_eq!(
        trim_args(&args(&["  a b \n", "\u{a0}x", ""])),
        args(&["a b", "x", ""])
    );
}

#[test]
fn the_standard_file_changes_nothing() {
    let standard = RunConfigFile::default();
    assert_eq!(standard.rpc_addr.text, "127.0.0.1:6666");
    assert_eq!(
        apply_file(RunConfig::default(), standard),
        Ok(RunConfig::default())
    );
}

#[test]
fn accepted_configurations_are_consistent() {
    let config = parse(
        run_args(&[
            "--gateway-heartbeat-secs",
            "0",
            "--max-peers",
            "0",
            "--low-fee-expiry-secs",
            "900",
            "--mempool-expiry-secs",
            "0",
            "--min-relay-fee",
            "50",
            "--market-fee",
            "3",
            "--public-addr",
            "0.0.0.0:5555",
            "--public-addr",
            "0.0.0.0:5555",
        ]),
        None,
    )
    .unwrap();
    assert_eq!(config.gateway_heartbeat, 1);
    assert_eq!(config.max_peers, 1);
    assert_eq!(config.mempool_expiry, 1);
    assert_eq!(config.low_fee_expiry, 1);
    assert_eq!(config.min_relay_fee, 50);
    assert_eq!(config.market_fee, 50);
    assert_eq!(config.public_addrs.len(), 1);
}
