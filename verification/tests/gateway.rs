use paqus_node::gateway::{
    gateway_authority, get_request, peers_path, post_request, response_body,
};
use paqus_node::network::message::ChainParams;

fn params() -> ChainParams {
    ChainParams {
        protocol_version: 1,
        chain_id: 77,
        chain_name: "paqus".to_string(),
        protocol_stage: "test".to_string(),
        pow_algorithm: "pow".to_string(),
        difficulty_algorithm: "asert".to_string(),
        network_magic: [0xde, 0xad, 0xbe, 0xef],
    }
}

#[test]
fn gateways_are_named_by_host_and_port() {
    assert_eq!(gateway_authority("http://host:80/"), Ok("host:80".to_string()));
    assert_eq!(gateway_authority("https://host//"), Ok("host".to_string()));
    assert_eq!(gateway_authority("host:1"), Ok("host:1".to_string()));
    assert_eq!(
        gateway_authority("http://host/path"),
        Err("gateway url path is not supported; use host:port".to_string())
    );
}

#[test]
fn requests_for_peers_name_the_chain() {
    assert_eq!(
        peers_path(&params(), 5, &None),
        "/v1/peers?chain_id=77&chain_name=paqus&protocol_stage=test&protocol_version=1&network_magic=deadbeef&limit=5"
    );
    assert!(peers_path(&params(), 5, &Some("a:1".to_string())).ends_with("&limit=5&exclude=a:1"));
}

#[test]
fn requests_are_plain_http() {
    assert_eq!(
        get_request("/p", "h"),
        "GET /p HTTP/1.1\r\nhost: h\r\nconnection: close\r\n\r\n"
    );
    assert_eq!(
        post_request("/p", "h", "{\"ä\":1}"),
        "POST /p HTTP/1.1\r\nhost: h\r\ncontent-type: application/json\r\ncontent-length: 8\r\nconnection: close\r\n\r\n{\"ä\":1}"
    );
}

#[test]
fn answers_have_a_body() {
    assert_eq!(
        response_body("HTTP/1.1 200 OK\r\nx: y\r\n\r\nbody\r\n\r\nmore"),
        Ok("body\r\n\r\nmore".to_string())
    );
    assert_eq!(
        response_body("HTTP/1.1 201 Created\r\n\r\n"),
        Ok("".to_string())
    );
    assert_eq!(
        response_body("HTTP/1.1 404 Not Found\r\n\r\nno"),
        Err("gateway returned error: no".to_string())
    );
    assert_eq!(
        response_body("nonsense"),
        Err("invalid gateway response: nonsense".to_string())
    );
}
