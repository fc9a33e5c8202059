use multi_phase_election::parse::{hash, url};

#[test]
fn hash_strips_prefix() {
    assert_eq!(hash("0x1234abcdEF"), Ok("1234abcdEF".to_string()));
}

#[test]
fn hash_without_prefix() {
    assert_eq!(hash("deadbeef"), Ok("deadbeef".to_string()));
}

#[test]
fn hash_empty_is_ok() {
    assert_eq!(hash(""), Ok(String::new()));
    assert_eq!(hash("0x"), Ok(String::new()));
}

#[test]
fn hash_reports_position_with_prefix() {
    assert_eq!(
        hash("0x12g4"),
        Err("Expected block hash, found illegal hex character at position: 4".to_string())
    );
}

#[test]
fn hash_reports_position_without_prefix() {
    assert_eq!(
        hash("z"),
        Err("Expected block hash, found illegal hex character at position: 2".to_string())
    );
    let long = format!("{}q", "a".repeat(123));
    assert_eq!(
        hash(&long),
        Err("Expected block hash, found illegal hex character at position: 125".to_string())
    );
}

#[test]
fn url_accepts_ws_and_wss() {
    assert_eq!(url("ws://localhost:9944"), Ok("ws://localhost:9944".to_string()));
    assert_eq!(url("wss://rpc.example.org"), Ok("wss://rpc.example.org".to_string()));
}

#[test]
fn url_rejects_other_schemes() {
    let msg = "not a valid WS(S) url: must start with 'ws://' or 'wss://'";
    assert_eq!(url("http://localhost:9944"), Err(msg));
    assert_eq!(url("ws:/x"), Err(msg));
    assert_eq!(url(""), Err(msg));
}
