use atlas_sphere::gateway::{chain_stats, event_filter, EventFilter, GatewayError};

#[test]
fn errors_answer_with_status_and_message() {
    let e = GatewayError::Database("pool closed".to_string());
    assert_eq!(e.to_string(), "Database error: pool closed");
    assert_eq!(e.into_response(), (500, "Database error: pool closed".to_string()));
    assert_eq!(GatewayError::NotFound("Block 7 not found".to_string()).into_response(), (404, "Block 7 not found".to_string()));
    assert_eq!(GatewayError::BadRequest("x".to_string()).into_response(), (400, "x".to_string()));
    assert_eq!(GatewayError::Config("c".to_string()).into_response(), (500, "Configuration error: c".to_string()));
    assert_eq!(GatewayError::Internal("i".to_string()).into_response(), (500, "Internal error: i".to_string()));
    assert_eq!(GatewayError::NotFound("n".to_string()).to_string(), "Not found: n");
}

#[test]
fn event_queries_need_a_pallet() {
    assert_eq!(
        event_filter(Some("balances".to_string()), Some("Transfer".to_string())),
        Ok(EventFilter::ByType { pallet: "balances".to_string(), variant: "Transfer".to_string() })
    );
    assert_eq!(event_filter(Some("balances".to_string()), None), Ok(EventFilter::ByPallet("balances".to_string())));
    assert_eq!(event_filter(None, Some("Transfer".to_string())), Err(GatewayError::BadRequest("pallet parameter required".to_string())));
    assert_eq!(event_filter(None, None), Err(GatewayError::BadRequest("pallet parameter required".to_string())));
}

#[test]
fn failed_comits_are_the_unsuccessful() {
    let s = chain_stats(10, Some(9), 20, 30, 8, 5, 3);
    assert_eq!(s.failed_comits, 3);
    assert_eq!(s.latest_block, Some(9));
    assert_eq!(s.total_accounts, 3);
    assert_eq!(chain_stats(0, None, 0, 0, 0, 0, 0).latest_block, None);
}
