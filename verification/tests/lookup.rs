use paqus_node::ids::Address;
use paqus_node::rpc::lookup::{
    is_peer_cache, parse_address_string, parse_hash_hex, peer_lines, qcash_file_lookup_prefix,
    CoinNameError, LookupError,
};

#[test]
fn parse_address_accepts_wallet_address_string() {
    let address = Address([0xab; 20]);
    let encoded = "xpq1h2ag";

    assert_eq!(parse_address_string(encoded, Some(address)), Ok(address));
}

#[test]
fn parse_address_accepts_legacy_hex() {
    let address = Address([0xab; 20]);
    let encoded = hex::encode(address.0);

    assert_eq!(parse_address_string(&encoded, None), Ok(address));
}

#[test]
fn addresses_have_twenty_bytes() {
    assert_eq!(
        parse_address_string("abcd", None),
        Err(LookupError::WrongLength)
    );
    assert_eq!(
        parse_address_string("no address", None),
        Err(LookupError::NotHex)
    );
    let mut bytes = [0u8; 20];
    for (i, byte) in bytes.iter_mut().enumerate() {
        *byte = i as u8 * 3;
    }
    assert_eq!(
        parse_address_string(&hex::encode_upper(bytes), None),
        Ok(Address(bytes))
    );
}

#[test]
fn hashes_have_thirty_two_bytes() {
    let mut bytes = [0u8; 32];
    for (i, byte) in bytes.iter_mut().enumerate() {
        *byte = i as u8 * 7;
    }
    assert_eq!(parse_hash_hex(&hex::encode(bytes)), Ok(bytes));
    assert_eq!(parse_hash_hex("00"), Err(LookupError::WrongLength));
    assert_eq!(parse_hash_hex("0"), Err(LookupError::NotHex));
    assert_eq!(parse_hash_hex("zz"), Err(LookupError::NotHex));
}

#[test]
fn qcash_file_lookup_accepts_file_names_and_prefixes() {
    assert_eq!(
        qcash_file_lookup_prefix("100_E5D6217A74B06B8E.XPQ").unwrap(),
        "e5d6217a74b06b8e"
    );
    assert_eq!(
        qcash_file_lookup_prefix("E5D6217A74B06B8E").unwrap(),
        "e5d6217a74b06b8e"
    );
    assert!(qcash_file_lookup_prefix("100_not-hex.XPQ").is_err());
}

#[test]
fn coin_names_name_something() {
    assert_eq!(
        qcash_file_lookup_prefix(""),
        Err(CoinNameError::NotHex)
    );
    assert_eq!(
        qcash_file_lookup_prefix("100_.XPQ"),
        Err(CoinNameError::NotHex)
    );
    assert_eq!(qcash_file_lookup_prefix("0123456789abcdefABCDEF").unwrap(), "0123456789abcdefabcdef");
}

#[test]
fn lists_of_peers_come_in_two_forms() {
    assert!(is_peer_cache("  \n {\"peers\":[]}"));
    assert!(!is_peer_cache("10.0.0.1:5555\n"));
    assert!(!is_peer_cache(""));
}

#[test]
fn lists_of_peers_skip_blank_lines_and_comments() {
    let lines = peer_lines("# peers\r\n10.0.0.1:5555 # first\r\n\r\n   \n  [::1]:5555  \n#\nlast");
    let found: Vec<(usize, &str)> = lines
        .iter()
        .map(|line| (line.number, line.text.as_str()))
        .collect();
    assert_eq!(
        found,
        vec![(2, "10.0.0.1:5555"), (5, "[::1]:5555"), (7, "last")]
    );
    assert!(peer_lines("").is_empty());
}
