//! The explorer gateway's decisions: how an error is answered, which event
//! query a request selects, and the chain statistics from the indexer's
//! counts.

use vstd::prelude::*;
use crate::node::ChainStats;
use crate::text::{concat2, owned};

verus! {

/// What can go wrong in the gateway.
#[derive(Clone, Debug, PartialEq, Eq)]
pub enum GatewayError {
    /// The database failed (its message).
    Database(String),
    Config(String),
    NotFound(String),
    BadRequest(String),
    Internal(String),
}

/// The prefix of an error's text.
pub open spec fn error_prefix(e: GatewayError) -> Seq<char> {
    match e {
        GatewayError::Database(_) => "Database error: "@,
        GatewayError::Config(_) => "Configuration error: "@,
        GatewayError::NotFound(_) => "Not found: "@,
        GatewayError::BadRequest(_) => "Bad request: "@,
        GatewayError::Internal(_) => "Internal error: "@,
    }
}

/// The detail an error carries.
pub open spec fn error_detail(e: GatewayError) -> Seq<char> {
    match e {
        GatewayError::Database(m) => m@,
        GatewayError::Config(m) => m@,
        GatewayError::NotFound(m) => m@,
        GatewayError::BadRequest(m) => m@,
        GatewayError::Internal(m) => m@,
    }
}

/// The HTTP status an error is answered with: 404 for a missing item, 400
/// for a bad request, 500 otherwise.
pub open spec fn error_status(e: GatewayError) -> u16 {
    match e {
        GatewayError::NotFound(_) => 404,
        GatewayError::BadRequest(_) => 400,
        _ => 500,
    }
}

/// The message an error is answered with: the bare detail for a missing
/// item or a bad request, the full text otherwise.
pub open spec fn response_text(e: GatewayError) -> Seq<char> {
    match e {
        GatewayError::NotFound(m) => m@,
        GatewayError::BadRequest(m) => m@,
        _ => error_prefix(e) + error_detail(e),
    }
}

impl GatewayError {
    /// The error's text: its kind, then its detail.
    pub fn to_string(&self) -> (s: String)
        ensures
            s@ == error_prefix(*self) + error_detail(*self),
    {
        match self {
            GatewayError::Database(m) => concat2("Database error: ", m.as_str()),
            GatewayError::Config(m) => concat2("Configuration error: ", m.as_str()),
            GatewayError::NotFound(m) => concat2("Not found: ", m.as_str()),
            GatewayError::BadRequest(m) => concat2("Bad request: ", m.as_str()),
            GatewayError::Internal(m) => concat2("Internal error: ", m.as_str()),
        }
    }

    /// The HTTP status and message the error is answered with.
    pub fn into_response(&self) -> (r: (u16, String))
        ensures
            r.0 == error_status(*self),
            r.1@ == response_text(*self),
    {
        match self {
            GatewayError::NotFound(m) => (404, owned(m.as_str())),
            GatewayError::BadRequest(m) => (400, owned(m.as_str())),
            _ => (500, self.to_string()),
        }
    }
}

/// The event query a request selects.
#[derive(Clone, Debug, PartialEq, Eq)]
pub enum EventFilter {
    /// Events of one variant of a pallet.
    ByType { pallet: String, variant: String },
    /// Events of a pallet.
    ByPallet(String),
}

/// The event query for the request's filters: a pallet and a variant, or a
/// pallet alone; a bad request without a pallet.
pub fn event_filter(pallet: Option<String>, variant: Option<String>) -> (r: Result<EventFilter, GatewayError>)
    ensures
        match (pallet, variant) {
            (Some(p), Some(v)) => r matches Ok(EventFilter::ByType { pallet: rp, variant: rv }) && rp@ == p@ && rv@ == v@,
            (Some(p), None) => r matches Ok(EventFilter::ByPallet(rp)) && rp@ == p@,
            _ => r matches Err(GatewayError::BadRequest(m)) && m@ == "pallet parameter required"@,
        },
{
    match (pallet, variant) {
        (Some(p), Some(v)) => Ok(EventFilter::ByType { pallet: p, variant: v }),
        (Some(p), None) => Ok(EventFilter::ByPallet(p)),
        _ => Err(GatewayError::BadRequest(owned("pallet parameter required"))),
    }
}

/// The chain statistics from the indexer's counts: failed comits are the
/// comits that did not succeed.
pub fn chain_stats(
    total_blocks: i64,
    latest_block: Option<i64>,
    total_extrinsics: i64,
    total_events: i64,
    total_comits: i64,
    successful_comits: i64,
    total_accounts: i64,
) -> (s: ChainStats)
    requires
        i64::MIN <= total_comits - successful_comits <= i64::MAX,
    ensures
        s == (ChainStats {
            total_blocks,
            latest_block,
            total_extrinsics,
            total_events,
            total_comits,
            successful_comits,
            failed_comits: (total_comits - successful_comits) as i64,
            total_accounts,
        }),
{
    ChainStats {
        total_blocks,
        latest_block,
        total_extrinsics,
        total_events,
        total_comits,
        successful_comits,
        failed_comits: total_comits - successful_comits,
        total_accounts,
    }
}

} // verus!
