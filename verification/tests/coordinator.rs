use atlas_sphere::persistence::{HtlcHash, InMemoryPersistence, OffchainPersistence, OffchainStorageProvider, SessionPersistence, SwapPhase, SwapSession};
use atlas_sphere::eth_rpc::IntErrorKind;
use atlas_sphere::rpc::{base64_decode, build_http_post, http_body, parse_hex_quantity, parse_url, RpcClient};
use std::cell::RefCell;
use std::collections::BTreeMap;
use std::sync::Arc;

fn make_test_session(id: &str) -> SwapSession {
    SwapSession {
        session_id: id.to_string(),
        hash_lock: HtlcHash([0xAB; 32]),
        htlc_fast: None,
        htlc_slow: None,
        flash_legs: vec![],
        leg_outcomes: vec![],
        phase: SwapPhase::Setup,
        timelock_fast: 1000,
        timelock_slow: 2000,
        created_at: 123456,
        updated_at: 123456,
    }
}

#[test]
fn inmemory_persistence_roundtrip() {
    let mut persistence = InMemoryPersistence::new();
    let session = make_test_session("swap-abc123");
    persistence.save(&session);
    assert_eq!(persistence.count(), 1);
    let loaded = persistence.load("swap-abc123").unwrap();
    assert_eq!(loaded.session_id, "swap-abc123");
    assert_eq!(loaded.timelock_fast, 1000);
    persistence.remove("swap-abc123");
    assert!(persistence.load("swap-abc123").is_none());
    assert_eq!(persistence.count(), 0);
}

#[test]
fn inmemory_persistence_load_all() {
    let mut persistence = InMemoryPersistence::new();
    persistence.save(&make_test_session("swap-001"));
    persistence.save(&make_test_session("swap-002"));
    persistence.save(&make_test_session("swap-003"));
    let all = persistence.load_all();
    assert_eq!(all.len(), 3);
    assert!(all.contains_key("swap-001"));
    assert!(all.contains_key("swap-002"));
    assert!(all.contains_key("swap-003"));
}

#[test]
fn saving_twice_keeps_one_entry_with_the_latest_session() {
    let mut persistence = InMemoryPersistence::new();
    persistence.save(&make_test_session("swap-x"));
    let mut newer = make_test_session("swap-x");
    newer.timelock_fast = 7;
    persistence.save(&newer);
    assert_eq!(persistence.count(), 1);
    assert_eq!(persistence.load("swap-x").unwrap().timelock_fast, 7);
    assert!(persistence.load("swap-y").is_none());
}

struct MemoryProvider {
    map: RefCell<BTreeMap<Vec<u8>, Vec<u8>>>,
}

impl OffchainStorageProvider for MemoryProvider {
    fn set(&self, key: &[u8], value: &[u8]) {
        self.map.borrow_mut().insert(key.to_vec(), value.to_vec());
    }

    fn get(&self, key: &[u8]) -> Option<Vec<u8>> {
        self.map.borrow().get(key).cloned()
    }

    fn remove(&self, key: &[u8]) {
        self.map.borrow_mut().remove(key);
    }

    fn keys_with_prefix(&self, prefix: &[u8]) -> Vec<Vec<u8>> {
        self.map.borrow().keys().filter(|k| k.starts_with(prefix)).cloned().collect()
    }
}

#[test]
fn offchain_session_key_is_prefixed_id() {
    let key = OffchainPersistence::<MemoryProvider>::session_key("swap-9");
    assert_eq!(key, b"x3sess:swap-9".to_vec());
}

#[test]
fn offchain_store_round_trips_bytes_under_the_session_key() {
    let provider = Arc::new(MemoryProvider { map: RefCell::new(BTreeMap::new()) });
    let store = OffchainPersistence::new(provider.clone());
    store.save_bytes("a", b"one");
    store.save_bytes("b", b"two");
    provider.set(b"other:c", b"three");
    assert_eq!(store.load_bytes("a"), Some(b"one".to_vec()));
    assert_eq!(store.count(), 2);
    assert_eq!(store.load_all_bytes().len(), 2);
    store.remove("a");
    assert_eq!(store.load_bytes("a"), None);
    assert_eq!(store.count(), 1);
}

#[test]
fn parse_url_basic() {
    let (host, port, path) = parse_url("http://localhost:8545/").unwrap();
    assert_eq!(host, "localhost");
    assert_eq!(port, 8545);
    assert_eq!(path, "/");
}

#[test]
fn parse_url_no_port() {
    let (host, port, path) = parse_url("http://mainnet.infura.io/v3/key").unwrap();
    assert_eq!(host, "mainnet.infura.io");
    assert_eq!(port, 80);
    assert_eq!(path, "/v3/key");
}

#[test]
fn parse_url_strips_either_scheme_and_rejects_bad_ports() {
    let (host, port, _) = parse_url("https://localhost:8545/").unwrap();
    assert_eq!(host, "localhost");
    assert_eq!(port, 8545);
    assert_eq!(parse_url("http://localhost:99999/"), Err("Invalid port".to_string()));
    assert!(parse_url("http://localhost:80a/").is_err());
    let (host, port, path) = parse_url("http://example.org").unwrap();
    assert_eq!(host, "example.org");
    assert_eq!(port, 80);
    assert_eq!(path, "/");
}

#[test]
fn base64_decode_works() {
    let encoded = "SGVsbG8=";
    let decoded = base64_decode(encoded).unwrap();
    assert_eq!(&decoded, b"Hello");
}

#[test]
fn base64_decode_handles_unpadded_and_rejects_bad_characters() {
    assert_eq!(base64_decode("SGk").unwrap(), b"Hi".to_vec());
    assert_eq!(base64_decode("").unwrap(), Vec::<u8>::new());
    assert!(base64_decode("SG!k").is_err());
}

#[test]
fn rpc_client_keeps_its_url_and_counts_request_ids() {
    let client = RpcClient::new("http://node:9933/rpc".to_string());
    assert_eq!(client.url(), "http://node:9933/rpc");
    assert_eq!(client.next_request_id(), 1);
    assert_eq!(client.next_request_id(), 2);
    let (host, port, path) = client.endpoint().unwrap();
    assert_eq!(host, "node");
    assert_eq!(port, 9933);
    assert_eq!(path, "/rpc");
}

#[test]
fn http_post_request_is_framed_with_the_byte_length() {
    let req = build_http_post("/rpc", "node", "{\"a\":\"é\"}");
    assert_eq!(
        req,
        "POST /rpc HTTP/1.1\r\nHost: node\r\nContent-Type: application/json\r\nContent-Length: 10\r\nConnection: close\r\n\r\n{\"a\":\"é\"}"
    );
}

#[test]
fn http_body_is_what_follows_the_first_blank_line() {
    assert_eq!(http_body(b"HTTP/1.1 200 OK\r\nX: y\r\n\r\n{\"r\":1}\r\n\r\nz"), Some(b"{\"r\":1}\r\n\r\nz".to_vec()));
    assert_eq!(http_body(b"HTTP/1.1 200 OK\r\n"), None);
    assert_eq!(http_body(b"\r\n\r\n"), Some(vec![]));
}

#[test]
fn hex_quantities_of_rpc_replies() {
    assert_eq!(parse_hex_quantity("0x1b4"), Ok(436));
    assert_eq!(parse_hex_quantity("ff"), Ok(255));
    assert_eq!(parse_hex_quantity("0x"), Err(IntErrorKind::Empty));
    assert_eq!(parse_hex_quantity("0xg"), Err(IntErrorKind::InvalidDigit));
    assert_eq!(parse_hex_quantity("0x10000000000000000"), Err(IntErrorKind::PosOverflow));
    assert_eq!(parse_hex_quantity("0xffffffffffffffff"), Ok(u64::MAX));
}
