use atlas_sphere::eth_rpc::HexError;
use atlas_sphere::node::JobStatusEntry;
use atlas_sphere::sidecar::{decode_trimmed_hex, hex_encode, job_id_from, job_info, job_request, QueuedJob, SubmitError};
use blake2::Digest;

#[test]
fn job_requests_decode_hex_and_default() {
    let j = job_request("0x0x6001", Some("0xff"), None, None, None).unwrap();
    assert_eq!(j.bytecode, vec![0x60, 0x01]);
    assert_eq!(j.input, vec![0xff]);
    assert_eq!(j.gas_limit, 1_000_000);
    assert_eq!(j.priority, 5);
    let j = job_request("60", None, Some(7), Some(9), Some("http://cb".to_string())).unwrap();
    assert!(j.input.is_empty());
    assert_eq!((j.gas_limit, j.priority), (7, 9));
    assert_eq!(j.callback_url, Some("http://cb".to_string()));
    assert_eq!(job_request("0xzz", None, None, None, None).err(), Some(SubmitError::InvalidBytecode(HexError::InvalidHexCharacter { c: 'z', index: 0 })));
    assert_eq!(job_request("60", Some("abc"), None, None, None).err(), Some(SubmitError::InvalidInput(HexError::OddLength)));
    assert_eq!(decode_trimmed_hex("0x0x0x"), Ok(vec![]));
}

#[test]
fn job_queries_merge_queue_and_status() {
    let id = [0xabu8; 32];
    let q = QueuedJob { gas_limit: 10, priority: 3, queued_for_secs: 4, running: true };
    let info = job_info(&id, None, Some(q)).unwrap();
    assert_eq!(info.job_id, "ab".repeat(32));
    assert_eq!(info.status, "running");
    assert_eq!((info.gas_limit, info.priority, info.queued_for_secs), (Some(10), Some(3), Some(4)));
    assert_eq!(info.updated_at_unix, None);
    let entry = JobStatusEntry { status: "submitted".to_string(), updated_at_unix: 77, tx_hash: Some("0x1".to_string()), error: None };
    let info = job_info(&id, Some(entry.clone()), Some(QueuedJob { running: false, ..q })).unwrap();
    assert_eq!(info.status, "submitted");
    assert_eq!(info.tx_hash, Some("0x1".to_string()));
    assert_eq!(info.updated_at_unix, Some(77));
    let info = job_info(&id, Some(entry), None).unwrap();
    assert_eq!(info.gas_limit, None);
    assert_eq!(info.status, "submitted");
    assert!(job_info(&id, None, None).is_none());
    assert_eq!(job_info(&id, None, Some(QueuedJob { running: false, ..q })).unwrap().status, "pending");
}

#[test]
fn job_ids_hash_time_and_randomness() {
    let nanos: u128 = 1_700_000_000_123_456_789;
    let random = [5u8; 16];
    let mut data = nanos.to_le_bytes().to_vec();
    data.extend_from_slice(&random);
    let expected: [u8; 32] = blake2::Blake2s256::digest(&data).into();
    assert_eq!(job_id_from(nanos, random), expected);
    assert_eq!(hex_encode(&[0x01, 0xfe]), "01fe");
}
