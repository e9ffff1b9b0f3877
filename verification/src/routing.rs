//! Cross-chain swap routing: the legs of a route between two chains, its
//! cost and score, and the atomic Comit payloads that execute it.

use vstd::prelude::*;
use crate::bytes::{be_u64, le_bytes, push_bytes, push_u64_be, zero32};
use crate::hashing::{keccak_256, keccak_256_spec};
use crate::positions::{be_bytes32, two_128, U256};

verus! {

/// Well-known token and router addresses.
#[derive(Clone, Copy, Debug, PartialEq, Eq, Structural)]
pub enum KnownAddress {
    UsdcEth,
    UsdcPolygon,
    UsdcArb,
    UsdcBase,
    WethEth,
    WethArb,
    WethBase,
    WethOp,
    Wmatic,
    Wavax,
    Wbnb,
    UniswapV2,
    Quickswap,
    SushiswapArb,
    UniswapV3,
    Traderjoe,
    Pancakeswap,
    Spookyswap,
}

/// The 20 bytes of a well-known address.
pub open spec fn known(a: KnownAddress) -> Seq<u8> {
    match a {
        KnownAddress::UsdcEth => seq![0xA0u8, 0xb8, 0x69, 0x91, 0xc6, 0x21, 0x8b, 0x36, 0xc1, 0xd1, 0x9D, 0x4a, 0x2e, 0x9E, 0xb0, 0xcE, 0x36, 0x06, 0xeB, 0x48],
        KnownAddress::UsdcPolygon => seq![0x27u8, 0x91, 0xBc, 0xa1, 0xf2, 0xde, 0x46, 0x61, 0xED, 0x88, 0xA3, 0x0C, 0x99, 0xA7, 0xa9, 0x44, 0x9A, 0xa8, 0x41, 0x74],
        KnownAddress::UsdcArb => seq![0xFFu8, 0x97, 0x0A, 0x61, 0xA0, 0x4b, 0x1c, 0xA1, 0x48, 0x34, 0xA4, 0x3f, 0x5d, 0xE4, 0x53, 0x3e, 0xbD, 0xDB, 0x5C, 0xC8],
        KnownAddress::UsdcBase => seq![0x83u8, 0x35, 0x89, 0xfC, 0xD6, 0xeD, 0xb6, 0xE0, 0x8f, 0x4c, 0x7C, 0x32, 0xD4, 0xf7, 0x1b, 0x54, 0xbd, 0xA0, 0x29, 0x13],
        KnownAddress::WethEth => seq![0xC0u8, 0x2a, 0xaA, 0x39, 0xb2, 0x23, 0xFE, 0x8D, 0x0A, 0x0e, 0x5C, 0x4F, 0x27, 0xeA, 0xD9, 0x08, 0x3C, 0x75, 0x6C, 0xc2],
        KnownAddress::WethArb => seq![0x82u8, 0xaF, 0x49, 0x44, 0x7D, 0x8a, 0x07, 0xe3, 0xbd, 0x95, 0xBD, 0x0d, 0x56, 0xf3, 0x52, 0x41, 0x52, 0x3f, 0xBa, 0xb1],
        KnownAddress::WethBase => seq![0x42u8, 0x00, 0x00, 0x00, 0x00, 0x00, 0x00, 0x00, 0x00, 0x00, 0x00, 0x00, 0x00, 0x00, 0x00, 0x00, 0x00, 0x00, 0x00, 0x06],
        KnownAddress::WethOp => seq![0x42u8, 0x00, 0x00, 0x00, 0x00, 0x00, 0x00, 0x00, 0x00, 0x00, 0x00, 0x00, 0x00, 0x00, 0x00, 0x00, 0x00, 0x00, 0x00, 0x06],
        KnownAddress::Wmatic => seq![0x0du8, 0x50, 0x0B, 0x1d, 0x8E, 0x8e, 0xF3, 0x1E, 0x21, 0xC9, 0x9d, 0x1D, 0xb9, 0xA6, 0x44, 0x4d, 0x3A, 0xDf, 0x12, 0x70],
        KnownAddress::Wavax => seq![0xB3u8, 0x1f, 0x66, 0xAA, 0x3C, 0x1e, 0x78, 0x53, 0x63, 0xF0, 0x87, 0x5A, 0x1B, 0x74, 0xE2, 0x7b, 0x85, 0xFD, 0x66, 0xc7],
        KnownAddress::Wbnb => seq![0xbbu8, 0x4C, 0xdB, 0x9C, 0xBd, 0x36, 0xB0, 0x1b, 0xD1, 0xcB, 0xaE, 0xBF, 0x2D, 0xe0, 0x8d, 0x91, 0x73, 0xbc, 0x09, 0x5c],
        KnownAddress::UniswapV2 => seq![0x7au8, 0x25, 0x0d, 0x56, 0x30, 0xB4, 0xcF, 0x53, 0x97, 0x39, 0xdF, 0x2C, 0x5d, 0xAc, 0xb4, 0xc6, 0x59, 0xF2, 0x48, 0x8D],
        KnownAddress::Quickswap => seq![0xa5u8, 0xE0, 0x82, 0x9C, 0xaC, 0xEd, 0x8f, 0xFD, 0xD4, 0xDe, 0x3c, 0x43, 0x69, 0x6c, 0x57, 0xF7, 0xD7, 0xA6, 0x78, 0xff],
        KnownAddress::SushiswapArb => seq![0x1bu8, 0x02, 0xdA, 0x8C, 0xb0, 0xd0, 0x97, 0xeB, 0x8D, 0x57, 0xA1, 0x75, 0xb8, 0x8c, 0x7D, 0x8b, 0x47, 0x99, 0x75, 0x06],
        KnownAddress::UniswapV3 => seq![0x68u8, 0xb3, 0x46, 0x58, 0x33, 0xfb, 0x72, 0xA7, 0x0e, 0xcd, 0xF4, 0x85, 0xE0, 0xe4, 0xC7, 0xbD, 0x86, 0x65, 0xFc, 0x45],
        KnownAddress::Traderjoe => seq![0x60u8, 0xaE, 0x61, 0x6a, 0x21, 0x55, 0xEe, 0x3d, 0x9A, 0x68, 0x54, 0x1B, 0xa4, 0x54, 0x48, 0x62, 0x31, 0x09, 0x33, 0xd4],
        KnownAddress::Pancakeswap => seq![0x10u8, 0xED, 0x43, 0xC7, 0x18, 0x71, 0x4e, 0xb6, 0x3d, 0x5a, 0xA5, 0x7B, 0x78, 0xB5, 0x47, 0x04, 0xE2, 0x56, 0x02, 0x4E],
        KnownAddress::Spookyswap => seq![0xF4u8, 0x91, 0xe7, 0xB6, 0x9E, 0x42, 0x44, 0xad, 0x40, 0x02, 0xBC, 0x14, 0xe8, 0x78, 0xa3, 0x42, 0x07, 0xE3, 0x8c, 0x29],
    }
}

/// The 20 bytes of a well-known address.
pub fn known_address(a: KnownAddress) -> (r: [u8; 20])
    ensures
        r@ == known(a),
{
    let r: [u8; 20] = match a {
        KnownAddress::UsdcEth => [0xA0, 0xb8, 0x69, 0x91, 0xc6, 0x21, 0x8b, 0x36, 0xc1, 0xd1, 0x9D, 0x4a, 0x2e, 0x9E, 0xb0, 0xcE, 0x36, 0x06, 0xeB, 0x48],
        KnownAddress::UsdcPolygon => [0x27, 0x91, 0xBc, 0xa1, 0xf2, 0xde, 0x46, 0x61, 0xED, 0x88, 0xA3, 0x0C, 0x99, 0xA7, 0xa9, 0x44, 0x9A, 0xa8, 0x41, 0x74],
        KnownAddress::UsdcArb => [0xFF, 0x97, 0x0A, 0x61, 0xA0, 0x4b, 0x1c, 0xA1, 0x48, 0x34, 0xA4, 0x3f, 0x5d, 0xE4, 0x53, 0x3e, 0xbD, 0xDB, 0x5C, 0xC8],
        KnownAddress::UsdcBase => [0x83, 0x35, 0x89, 0xfC, 0xD6, 0xeD, 0xb6, 0xE0, 0x8f, 0x4c, 0x7C, 0x32, 0xD4, 0xf7, 0x1b, 0x54, 0xbd, 0xA0, 0x29, 0x13],
        KnownAddress::WethEth => [0xC0, 0x2a, 0xaA, 0x39, 0xb2, 0x23, 0xFE, 0x8D, 0x0A, 0x0e, 0x5C, 0x4F, 0x27, 0xeA, 0xD9, 0x08, 0x3C, 0x75, 0x6C, 0xc2],
        KnownAddress::WethArb => [0x82, 0xaF, 0x49, 0x44, 0x7D, 0x8a, 0x07, 0xe3, 0xbd, 0x95, 0xBD, 0x0d, 0x56, 0xf3, 0x52, 0x41, 0x52, 0x3f, 0xBa, 0xb1],
        KnownAddress::WethBase => [0x42, 0x00, 0x00, 0x00, 0x00, 0x00, 0x00, 0x00, 0x00, 0x00, 0x00, 0x00, 0x00, 0x00, 0x00, 0x00, 0x00, 0x00, 0x00, 0x06],
        KnownAddress::WethOp => [0x42, 0x00, 0x00, 0x00, 0x00, 0x00, 0x00, 0x00, 0x00, 0x00, 0x00, 0x00, 0x00, 0x00, 0x00, 0x00, 0x00, 0x00, 0x00, 0x06],
        KnownAddress::Wmatic => [0x0d, 0x50, 0x0B, 0x1d, 0x8E, 0x8e, 0xF3, 0x1E, 0x21, 0xC9, 0x9d, 0x1D, 0xb9, 0xA6, 0x44, 0x4d, 0x3A, 0xDf, 0x12, 0x70],
        KnownAddress::Wavax => [0xB3, 0x1f, 0x66, 0xAA, 0x3C, 0x1e, 0x78, 0x53, 0x63, 0xF0, 0x87, 0x5A, 0x1B, 0x74, 0xE2, 0x7b, 0x85, 0xFD, 0x66, 0xc7],
        KnownAddress::Wbnb => [0xbb, 0x4C, 0xdB, 0x9C, 0xBd, 0x36, 0xB0, 0x1b, 0xD1, 0xcB, 0xaE, 0xBF, 0x2D, 0xe0, 0x8d, 0x91, 0x73, 0xbc, 0x09, 0x5c],
        KnownAddress::UniswapV2 => [0x7a, 0x25, 0x0d, 0x56, 0x30, 0xB4, 0xcF, 0x53, 0x97, 0x39, 0xdF, 0x2C, 0x5d, 0xAc, 0xb4, 0xc6, 0x59, 0xF2, 0x48, 0x8D],
        KnownAddress::Quickswap => [0xa5, 0xE0, 0x82, 0x9C, 0xaC, 0xEd, 0x8f, 0xFD, 0xD4, 0xDe, 0x3c, 0x43, 0x69, 0x6c, 0x57, 0xF7, 0xD7, 0xA6, 0x78, 0xff],
        KnownAddress::SushiswapArb => [0x1b, 0x02, 0xdA, 0x8C, 0xb0, 0xd0, 0x97, 0xeB, 0x8D, 0x57, 0xA1, 0x75, 0xb8, 0x8c, 0x7D, 0x8b, 0x47, 0x99, 0x75, 0x06],
        KnownAddress::UniswapV3 => [0x68, 0xb3, 0x46, 0x58, 0x33, 0xfb, 0x72, 0xA7, 0x0e, 0xcd, 0xF4, 0x85, 0xE0, 0xe4, 0xC7, 0xbD, 0x86, 0x65, 0xFc, 0x45],
        KnownAddress::Traderjoe => [0x60, 0xaE, 0x61, 0x6a, 0x21, 0x55, 0xEe, 0x3d, 0x9A, 0x68, 0x54, 0x1B, 0xa4, 0x54, 0x48, 0x62, 0x31, 0x09, 0x33, 0xd4],
        KnownAddress::Pancakeswap => [0x10, 0xED, 0x43, 0xC7, 0x18, 0x71, 0x4e, 0xb6, 0x3d, 0x5a, 0xA5, 0x7B, 0x78, 0xB5, 0x47, 0x04, 0xE2, 0x56, 0x02, 0x4E],
        KnownAddress::Spookyswap => [0xF4, 0x91, 0xe7, 0xB6, 0x9E, 0x42, 0x44, 0xad, 0x40, 0x02, 0xBC, 0x14, 0xe8, 0x78, 0xa3, 0x42, 0x07, 0xE3, 0x8c, 0x29],
    };
    assert(r@ =~= known(a));
    r
}

/// Whether two addresses are equal.
pub fn addr_eq(a: &[u8; 20], b: &[u8; 20]) -> (r: bool)
    ensures
        r == (a@ == b@),
{
    let mut i: usize = 0;
    while i < 20
        invariant
            i <= 20,
            forall|j: int| 0 <= j < i ==> a@[j] == b@[j],
        decreases 20 - i,
    {
        if a[i] != b[i] {
            return false;
        }
        i = i + 1;
    }
    assert(a@ =~= b@);
    true
}

/// The token a route bridges `token` through on `chain_id`: WETH and USDC of
/// Ethereum bridge as themselves; anything else goes through the chain's
/// USDC (Ethereum's where the chain has none listed).
pub open spec fn bridge_token(chain_id: u64, token: Seq<u8>) -> Seq<u8> {
    if token == known(KnownAddress::WethEth) || token == known(KnownAddress::UsdcEth) {
        token
    } else if chain_id == 137 {
        known(KnownAddress::UsdcPolygon)
    } else if chain_id == 42161 {
        known(KnownAddress::UsdcArb)
    } else if chain_id == 8453 {
        known(KnownAddress::UsdcBase)
    } else {
        known(KnownAddress::UsdcEth)
    }
}

/// The token a route bridges `token` through on `chain_id` (see
/// [`bridge_token`]).
pub fn find_bridgeable_token(chain_id: u64, token: &[u8; 20]) -> (r: [u8; 20])
    ensures
        r@ == bridge_token(chain_id, token@),
{
    if addr_eq(token, &known_address(KnownAddress::WethEth)) || addr_eq(token, &known_address(KnownAddress::UsdcEth)) {
        return *token;
    }
    if chain_id == 137 {
        known_address(KnownAddress::UsdcPolygon)
    } else if chain_id == 42161 {
        known_address(KnownAddress::UsdcArb)
    } else if chain_id == 8453 {
        known_address(KnownAddress::UsdcBase)
    } else {
        known_address(KnownAddress::UsdcEth)
    }
}

/// The DEX router of a chain (Uniswap V2 where none is listed).
pub open spec fn dex_router(chain_id: u64) -> Seq<u8> {
    if chain_id == 137 {
        known(KnownAddress::Quickswap)
    } else if chain_id == 42161 {
        known(KnownAddress::SushiswapArb)
    } else if chain_id == 10 {
        known(KnownAddress::UniswapV3)
    } else if chain_id == 43114 {
        known(KnownAddress::Traderjoe)
    } else if chain_id == 56 {
        known(KnownAddress::Pancakeswap)
    } else if chain_id == 250 {
        known(KnownAddress::Spookyswap)
    } else {
        known(KnownAddress::UniswapV2)
    }
}

/// The DEX router of a chain (see [`dex_router`]).
pub fn get_dex_router(chain_id: u64) -> (r: [u8; 20])
    ensures
        r@ == dex_router(chain_id),
{
    if chain_id == 137 {
        known_address(KnownAddress::Quickswap)
    } else if chain_id == 42161 {
        known_address(KnownAddress::SushiswapArb)
    } else if chain_id == 10 {
        known_address(KnownAddress::UniswapV3)
    } else if chain_id == 43114 {
        known_address(KnownAddress::Traderjoe)
    } else if chain_id == 56 {
        known_address(KnownAddress::Pancakeswap)
    } else if chain_id == 250 {
        known_address(KnownAddress::Spookyswap)
    } else {
        known_address(KnownAddress::UniswapV2)
    }
}

/// The wrapped native token of a chain (Ethereum's WETH where none is
/// listed).
pub open spec fn weth(chain_id: u64) -> Seq<u8> {
    if chain_id == 137 {
        known(KnownAddress::Wmatic)
    } else if chain_id == 42161 {
        known(KnownAddress::WethArb)
    } else if chain_id == 8453 {
        known(KnownAddress::WethBase)
    } else if chain_id == 10 {
        known(KnownAddress::WethOp)
    } else if chain_id == 43114 {
        known(KnownAddress::Wavax)
    } else if chain_id == 56 {
        known(KnownAddress::Wbnb)
    } else {
        known(KnownAddress::WethEth)
    }
}

/// The wrapped native token of a chain (see [`weth`]).
pub fn get_weth(chain_id: u64) -> (r: [u8; 20])
    ensures
        r@ == weth(chain_id),
{
    if chain_id == 137 {
        known_address(KnownAddress::Wmatic)
    } else if chain_id == 42161 {
        known_address(KnownAddress::WethArb)
    } else if chain_id == 8453 {
        known_address(KnownAddress::WethBase)
    } else if chain_id == 10 {
        known_address(KnownAddress::WethOp)
    } else if chain_id == 43114 {
        known_address(KnownAddress::Wavax)
    } else if chain_id == 56 {
        known_address(KnownAddress::Wbnb)
    } else {
        known_address(KnownAddress::WethEth)
    }
}

/// The X3 bridge mirror contract on a chain: `A7 1A 50 00`, twelve zero
/// bytes, then the low 32 bits of the chain id, big-endian.
pub open spec fn x3_bridge(chain_id: u64) -> Seq<u8> {
    seq![0xA7u8, 0x1A, 0x50, 0x00] + Seq::new(12, |_i: int| 0u8) + le_bytes((chain_id % 0x1_0000_0000) as nat, 4).reverse()
}

/// The X3 bridge mirror contract on a chain (see [`x3_bridge`]).
pub fn get_x3_bridge(chain_id: u64) -> (r: [u8; 20])
    ensures
        r@ == x3_bridge(chain_id),
{
    let low = chain_id % 0x1_0000_0000;
    let mut r = [0u8; 20];
    r[0] = 0xA7;
    r[1] = 0x1A;
    r[2] = 0x50;
    r[3] = 0x00;
    r[16] = (low / 0x100_0000) as u8;
    r[17] = ((low / 0x1_0000) % 256) as u8;
    r[18] = ((low / 256) % 256) as u8;
    r[19] = (low % 256) as u8;
    proof {
        reveal_with_fuel(crate::bytes::pow256, 5);
        let le = le_bytes(low as nat, 4);
        let t = x3_bridge(chain_id);
        assert(le[3] == ((low as nat / 0x100_0000) % 256) as u8);
        assert(le[2] == ((low as nat / 0x1_0000) % 256) as u8);
        assert(le[1] == ((low as nat / 256) % 256) as u8);
        assert(le[0] == ((low as nat / 1) % 256) as u8);
        assert((low as nat / 0x100_0000) % 256 == low as nat / 0x100_0000);
        assert forall|j: int| 0 <= j < 20 implies r@[j] == t[j] by {
            if j >= 16 {
                assert(t[j] == le.reverse()[j - 16]);
                assert(le.reverse()[j - 16] == le[3 - (j - 16)]);
            }
        }
    }
    assert(r@ =~= x3_bridge(chain_id));
    r
}

/// The hub chains that make good intermediate hops, in order.
pub open spec fn hub_chains() -> Seq<u64> {
    seq![1u64, 42161, 137, 8453, 10]
}

/// A chain other than `from` and `to`.
pub open spec fn other_than(from: u64, to: u64) -> spec_fn(u64) -> bool {
    |c: u64| c != from && c != to
}

/// The hubs other than `from` and `to`, in hub order.
pub open spec fn intermediates(from: u64, to: u64) -> Seq<u64> {
    hub_chains().filter(other_than(from, to))
}

/// The hubs other than `from` and `to` (see [`intermediates`]).
pub fn find_intermediate_chains(from: u64, to: u64) -> (v: Vec<u64>)
    ensures
        v@ == intermediates(from, to),
{
    let hubs: Vec<u64> = vec![1, 42161, 137, 8453, 10];
    let mut v: Vec<u64> = Vec::new();
    let mut i: usize = 0;
    assert(hubs@ =~= hub_chains());
    while i < hubs.len()
        invariant
            i <= hubs@.len(),
            hubs@ == hub_chains(),
            v@ == hubs@.take(i as int).filter(other_than(from, to)),
        decreases hubs.len() - i,
    {
        let c = hubs[i];
        proof {
            reveal(Seq::filter);
            assert(hubs@.take(i + 1).drop_last() =~= hubs@.take(i as int));
        }
        if c != from && c != to {
            v.push(c);
        }
        i = i + 1;
    }
    assert(hubs@.take(hubs@.len() as int) =~= hubs@);
    v
}


/// The kind of a route leg.
#[derive(Clone, Copy, Debug, PartialEq, Eq, Structural)]
pub enum RouteAction {
    /// Swap tokens on one chain (DEX).
    Swap,
    /// Bridge tokens to another chain.
    Bridge,
    /// Wrap the native token.
    Wrap,
    /// Unwrap to the native token.
    Unwrap,
}

/// One leg of a swap route.
#[derive(Clone, Copy, Debug)]
pub struct RouteLeg {
    pub from_chain: u64,
    pub to_chain: u64,
    pub from_token: [u8; 20],
    pub to_token: [u8; 20],
    pub action: RouteAction,
    /// Estimated gas cost in wei.
    pub estimated_gas: U256,
    pub estimated_time_ms: u64,
}

/// Mathematical model of a [`RouteLeg`].
pub struct LegModel {
    pub from_chain: u64,
    pub to_chain: u64,
    pub from_token: Seq<u8>,
    pub to_token: Seq<u8>,
    pub action: RouteAction,
    pub gas: nat,
    pub time_ms: u64,
}

impl View for RouteLeg {
    type V = LegModel;

    open spec fn view(&self) -> LegModel {
        LegModel {
            from_chain: self.from_chain,
            to_chain: self.to_chain,
            from_token: self.from_token@,
            to_token: self.to_token@,
            action: self.action,
            gas: self.estimated_gas.value(),
            time_ms: self.estimated_time_ms,
        }
    }
}

/// The legs of a route, as models.
pub open spec fn legs_view(legs: Seq<RouteLeg>) -> Seq<LegModel> {
    legs.map_values(|l: RouteLeg| l@)
}

/// A complete route for a swap.
#[derive(Clone, Debug)]
pub struct SwapRoute {
    pub legs: Vec<RouteLeg>,
    pub total_gas: U256,
    pub total_time_ms: u64,
    /// Lower is better.
    pub score: u64,
    pub source_chain: u64,
    pub dest_chain: u64,
    pub input_amount: U256,
    pub estimated_output: U256,
}

/// A chain the router knows, with its block time.
#[derive(Clone, Copy, Debug)]
pub struct ChainInfo {
    pub chain_id: u64,
    pub block_time_ms: u64,
}

/// The block time of the first registry entry for `id`, if any.
#[verifier::opaque]
pub open spec fn chain_time(chains: Seq<ChainInfo>, id: u64) -> Option<u64> {
    if exists|i: int| 0 <= i < chains.len() && chains[i].chain_id == id {
        let i = choose|i: int| 0 <= i < chains.len() && chains[i].chain_id == id && forall|j: int| 0 <= j < i ==> chains[j].chain_id != id;
        Some(chains[i].block_time_ms)
    } else {
        None
    }
}

/// The block time of a chain, 12 s where the registry lacks it.
pub open spec fn block_time_or_default(chains: Seq<ChainInfo>, id: u64) -> u64 {
    match chain_time(chains, id) {
        Some(t) => t,
        None => 12000,
    }
}

/// The legs of the route from `from_token` on `from_chain` to `to_token` on
/// `to_chain`: on one chain a single swap (none for the same token); across
/// chains an optional swap into the bridge token, the bridge hop (50 000
/// gas, 6 s), and an optional swap out of the destination's bridge token.
/// A swap costs 150 000 gas and one block of its chain.
#[verifier::opaque]
pub open spec fn route_legs(chains: Seq<ChainInfo>, from_chain: u64, from_token: Seq<u8>, to_chain: u64, to_token: Seq<u8>) -> Seq<LegModel> {
    let bt_from = block_time_or_default(chains, from_chain);
    let bt_to = block_time_or_default(chains, to_chain);
    if from_chain == to_chain {
        if from_token != to_token {
            seq![LegModel { from_chain, to_chain, from_token, to_token, action: RouteAction::Swap, gas: 150000, time_ms: bt_from }]
        } else {
            Seq::empty()
        }
    } else {
        let b = bridge_token(from_chain, from_token);
        let db = bridge_token(to_chain, to_token);
        (if from_token != b {
            seq![LegModel { from_chain, to_chain: from_chain, from_token, to_token: b, action: RouteAction::Swap, gas: 150000, time_ms: bt_from }]
        } else {
            Seq::empty()
        }) + seq![LegModel { from_chain, to_chain, from_token: b, to_token: db, action: RouteAction::Bridge, gas: 50000, time_ms: 6000 }]
            + (if db != to_token {
            seq![LegModel { from_chain: to_chain, to_chain, from_token: db, to_token, action: RouteAction::Swap, gas: 150000, time_ms: bt_to }]
        } else {
            Seq::empty()
        })
    }
}

/// The total gas of some legs.
pub open spec fn legs_gas(legs: Seq<LegModel>) -> nat
    decreases legs.len(),
{
    if legs.len() == 0 { 0 } else { legs_gas(legs.drop_last()) + legs.last().gas }
}

/// The total time of some legs.
pub open spec fn legs_time(legs: Seq<LegModel>) -> nat
    decreases legs.len(),
{
    if legs.len() == 0 { 0 } else { legs_time(legs.drop_last()) + legs.last().time_ms as nat }
}

/// A route's score, lower being better: 60% its time in seconds and 40% its
/// gas (low 64 bits) in units of 10 000.
pub open spec fn route_score(time_ms: nat, gas: nat) -> nat {
    ((time_ms / 1000) * 6 + ((gas % 0x1_0000_0000_0000_0000) / 10000) * 4) / 10
}

/// The output estimate: the input less 0.5% slippage, rounded down.
pub open spec fn output_estimate(amount: nat) -> nat {
    amount * 9950 / 10000
}

/// The route's totals fit the machine words the router keeps them in.
pub open spec fn route_fits(legs: Seq<LegModel>) -> bool {
    &&& legs_time(legs) <= u64::MAX
    &&& (legs_time(legs) / 1000) * 6 + ((legs_gas(legs) % 0x1_0000_0000_0000_0000) / 10000) * 4 <= u64::MAX
}

/// The amount times 9950 fits in 256 bits.
pub open spec fn amount_fits(amount: U256) -> bool {
    amount.value() * 9950 < two_128() * two_128()
}

/// `amount` less 0.5%, rounded down.
pub fn slippage_output(amount: &U256) -> (r: U256)
    requires
        amount_fits(*amount),
    ensures
        r.value() == output_estimate(amount.value()),
{
    let (q, rem) = amount.div_rem_small(200);
    let up = if rem > 0 { q.saturating_add(&U256::from_u128(1)) } else { q };
    proof {
        let v = amount.value();
        assert(v == q.value() * 200 + rem);
        assert(q.value() + 1 < two_128() * two_128()) by (nonlinear_arith)
            requires
                v == q.value() * 200 + rem,
                v * 9950 < two_128() * two_128();
        assert(up.value() <= v) by (nonlinear_arith)
            requires
                v == q.value() * 200 + rem,
                rem < 200,
                up.value() == (if rem > 0 { q.value() + 1 } else { q.value() }),
                v * 9950 < two_128() * two_128();
    }
    let r = match amount.checked_sub(&up) {
        Some(x) => x,
        None => U256::zero(),
    };
    proof {
        let v = amount.value();
        let qv = q.value();
        assert(r.value() == v - up.value());
        if rem > 0 {
            assert(v * 9950 / 10000 == v - (qv + 1)) by (nonlinear_arith)
                requires
                    v == qv * 200 + rem,
                    0 < rem < 200;
        } else {
            assert(v * 9950 / 10000 == v - qv) by (nonlinear_arith)
                requires
                    v == qv * 200,
                    rem == 0;
        }
    }
    r
}


/// A Comit transaction payload for atomic execution.
#[derive(Clone, Debug)]
pub struct ComitPayload {
    pub chain_id: u64,
    /// The contract called.
    pub target: [u8; 20],
    pub calldata: Vec<u8>,
    /// Native token sent along.
    pub value: U256,
    pub gas_limit: u64,
}

/// Mathematical model of a [`ComitPayload`].
pub struct PayloadModel {
    pub chain_id: u64,
    pub target: Seq<u8>,
    pub calldata: Seq<u8>,
    pub value: nat,
    pub gas_limit: u64,
}

impl View for ComitPayload {
    type V = PayloadModel;

    open spec fn view(&self) -> PayloadModel {
        PayloadModel {
            chain_id: self.chain_id,
            target: self.target@,
            calldata: self.calldata@,
            value: self.value.value(),
            gas_limit: self.gas_limit,
        }
    }
}

/// The payloads, as models.
pub open spec fn payloads_view(ps: Seq<ComitPayload>) -> Seq<PayloadModel> {
    ps.map_values(|p: ComitPayload| p@)
}

/// The payload that executes one leg for `amount`: a DEX
/// `swapExactTokensForTokens` (selector `38ed1739`, amount in, zero minimum
/// out), an X3 `lockAndBridge` (selector `BBBBBBBB`, recipient, amount,
/// destination chain), a WETH `deposit()` (`d0e30db0`, sending the amount) or
/// a WETH `withdraw(uint256)` (`2e1a7d4d`, amount).
pub open spec fn leg_payload(leg: LegModel, recipient: Seq<u8>, amount: U256) -> PayloadModel {
    match leg.action {
        RouteAction::Swap => PayloadModel {
            chain_id: leg.from_chain,
            target: dex_router(leg.from_chain),
            calldata: seq![0x38u8, 0xed, 0x17, 0x39] + be_bytes32(amount) + zero32(),
            value: 0,
            gas_limit: 200000,
        },
        RouteAction::Bridge => PayloadModel {
            chain_id: leg.from_chain,
            target: x3_bridge(leg.from_chain),
            calldata: seq![0xBBu8, 0xBB, 0xBB, 0xBB] + recipient + be_bytes32(amount) + be_u64(leg.to_chain),
            value: 0,
            gas_limit: 100000,
        },
        RouteAction::Wrap => PayloadModel {
            chain_id: leg.from_chain,
            target: weth(leg.from_chain),
            calldata: seq![0xd0u8, 0xe3, 0x0d, 0xb0],
            value: amount.value(),
            gas_limit: 50000,
        },
        RouteAction::Unwrap => PayloadModel {
            chain_id: leg.from_chain,
            target: weth(leg.from_chain),
            calldata: seq![0x2eu8, 0x1a, 0x7d, 0x4d] + be_bytes32(amount),
            value: 0,
            gas_limit: 50000,
        },
    }
}

/// The bytes a payload contributes to the prepare root: its chain id
/// (big-endian), target and calldata.
pub open spec fn payload_commitment(p: PayloadModel) -> Seq<u8> {
    be_u64(p.chain_id) + p.target + p.calldata
}

/// The commitments of some payloads, in order.
pub open spec fn commitments(ps: Seq<PayloadModel>) -> Seq<u8>
    decreases ps.len(),
{
    if ps.len() == 0 { Seq::empty() } else { commitments(ps.drop_last()) + payload_commitment(ps.last()) }
}

/// The data hashed into a bundle's prepare root: the nonce (big-endian),
/// then each payload's commitment.
pub open spec fn prepare_data(ps: Seq<PayloadModel>, nonce: u64) -> Seq<u8> {
    be_u64(nonce) + commitments(ps)
}

/// An atomic Comit transaction bundle.
#[derive(Clone, Debug)]
pub struct AtomicSwapBundle {
    pub payloads: Vec<ComitPayload>,
    /// Keccak-256 of the nonce and the payloads' commitments.
    pub prepare_root: [u8; 32],
    pub nonce: u64,
    pub total_value: U256,
}

/// A quote: the route and its output.
#[derive(Clone, Debug)]
pub struct QuoteResult {
    pub input_amount: U256,
    pub output_amount: U256,
    /// In basis points.
    pub price_impact: U256,
    pub route: SwapRoute,
    pub expires_at: u64,
}

/// Appends the 32 big-endian bytes of `v` to `out`.
fn push_u256_be(out: &mut Vec<u8>, v: &U256)
    ensures
        final(out)@ == old(out)@ + be_bytes32(*v),
{
    let b = v.to_be_bytes();
    push_bytes(out, &b);
}

/// Appends a 4-byte selector to `out`.
fn push_selector(out: &mut Vec<u8>, a: u8, b: u8, c: u8, d: u8)
    ensures
        final(out)@ == old(out)@ + seq![a, b, c, d],
{
    let ghost before = out@;
    out.push(a);
    out.push(b);
    out.push(c);
    out.push(d);
    assert(out@ =~= before + seq![a, b, c, d]);
}


/// The registry has the chain.
pub open spec fn present(chains: Seq<ChainInfo>, id: u64) -> bool {
    chain_time(chains, id) is Some
}

/// A route's fields are those of the given legs, chains and amounts.
#[verifier::opaque]
pub open spec fn route_matches(route: SwapRoute, legs: Seq<LegModel>, from_chain: u64, to_chain: u64, amount: U256, output: nat) -> bool {
    &&& legs_view(route.legs@) == legs
    &&& route.total_gas.value() == legs_gas(legs)
    &&& route.total_time_ms == legs_time(legs)
    &&& route.score == route_score(legs_time(legs), legs_gas(legs))
    &&& route.source_chain == from_chain
    &&& route.dest_chain == to_chain
    &&& route.input_amount == amount
    &&& route.estimated_output.value() == output
}

/// A direct route can be computed without overflow: where both chains are
/// known, its totals and score fit and the amount times 9950 fits.
pub open spec fn direct_ok(chains: Seq<ChainInfo>, from_chain: u64, from_token: Seq<u8>, to_chain: u64, to_token: Seq<u8>, amount: U256) -> bool {
    present(chains, from_chain) && present(chains, to_chain) ==> {
        &&& route_fits(route_legs(chains, from_chain, from_token, to_chain, to_token))
        &&& amount_fits(amount)
    }
}

/// The token a route through `via` crosses it in: the chain's USDC.
pub open spec fn via_token(via: u64) -> Seq<u8> {
    bridge_token(via, Seq::new(20, |_i: int| 0u8))
}

/// The legs of the route through `via`: to its USDC, then on to the
/// destination.
pub open spec fn via_legs(chains: Seq<ChainInfo>, via: u64, from_chain: u64, from_token: Seq<u8>, to_chain: u64, to_token: Seq<u8>) -> Seq<LegModel> {
    route_legs(chains, from_chain, from_token, via, via_token(via)) + route_legs(chains, via, via_token(via), to_chain, to_token)
}

/// A route through `via` can be computed without overflow.
pub open spec fn via_ok(chains: Seq<ChainInfo>, via: u64, from_chain: u64, from_token: Seq<u8>, to_chain: u64, to_token: Seq<u8>, amount: U256) -> bool {
    &&& direct_ok(chains, from_chain, from_token, via, via_token(via), amount)
    &&& present(chains, from_chain) && present(chains, via) && present(chains, to_chain)
        ==> route_fits(via_legs(chains, via, from_chain, from_token, to_chain, to_token))
}

/// The score of some totals (see [`route_score`]).
fn score_of(total_time_ms: u64, total_gas: &U256) -> (s: u64)
    requires
        (total_time_ms / 1000) * 6 + ((total_gas.value() % 0x1_0000_0000_0000_0000) / 10000) * 4 <= u64::MAX,
    ensures
        s == route_score(total_time_ms as nat, total_gas.value()),
{
    let time_score = total_time_ms / 1000;
    let gas_score = total_gas.low_u64() / 10_000;
    (time_score * 6 + gas_score * 4) / 10
}

/// Totals add over concatenated legs.
proof fn lemma_totals_append(a: Seq<LegModel>, b: Seq<LegModel>)
    ensures
        legs_time(a + b) == legs_time(a) + legs_time(b),
        legs_gas(a + b) == legs_gas(a) + legs_gas(b),
    decreases b.len(),
{
    if b.len() == 0 {
        assert(a + b =~= a);
    } else {
        lemma_totals_append(a, b.drop_last());
        assert((a + b).drop_last() =~= a + b.drop_last());
    }
}

/// A part of a route whose totals fit fits too.
proof fn lemma_fits_part(a: Seq<LegModel>, b: Seq<LegModel>)
    requires
        route_fits(a + b),
        legs_gas(a + b) < 0x1_0000_0000_0000_0000,
    ensures
        route_fits(a),
        route_fits(b),
{
    lemma_totals_append(a, b);
    let t = legs_time(a + b);
    let g = legs_gas(a + b);
    assert(g % 0x1_0000_0000_0000_0000 == g);
    assert(legs_gas(a) % 0x1_0000_0000_0000_0000 == legs_gas(a));
    assert(legs_gas(b) % 0x1_0000_0000_0000_0000 == legs_gas(b));
    vstd::arithmetic::div_mod::lemma_div_is_ordered(legs_time(a) as int, t as int, 1000);
    vstd::arithmetic::div_mod::lemma_div_is_ordered(legs_time(b) as int, t as int, 1000);
    vstd::arithmetic::div_mod::lemma_div_is_ordered(legs_gas(a) as int, g as int, 10000);
    vstd::arithmetic::div_mod::lemma_div_is_ordered(legs_gas(b) as int, g as int, 10000);
}

/// The output estimate is at most the amount.
proof fn lemma_output_le(amount: nat)
    ensures
        output_estimate(amount) <= amount,
{
    assert(amount * 9950 / 10000 <= amount) by (nonlinear_arith);
}


/// `perm` lists the indices of `keys` by ascending key, indices of equal
/// keys in ascending order: the order a stable sort gives.
pub open spec fn stable_order(keys: Seq<u64>, perm: Seq<int>) -> bool {
    &&& perm.len() == keys.len()
    &&& forall|i: int| 0 <= i < perm.len() ==> 0 <= #[trigger] perm[i] < keys.len()
    &&& forall|i: int, j: int| #![trigger perm[i], perm[j]] 0 <= i < j < perm.len() ==> perm[i] != perm[j]
    &&& forall|i: int, j: int| #![trigger perm[i], perm[j]] 0 <= i < j < perm.len() ==> keys[perm[i]] <= keys[perm[j]]
    &&& forall|i: int, j: int| #![trigger perm[i], perm[j]] 0 <= i < j < perm.len() && keys[perm[i]] == keys[perm[j]] ==> perm[i] < perm[j]
}

/// The scores of some routes.
pub open spec fn scores(rs: Seq<SwapRoute>) -> Seq<u64> {
    rs.map_values(|r: SwapRoute| r.score)
}

/// The intermediate chains among `mids` that the registry has, as routes
/// through them.
pub open spec fn present_vias(chains: Seq<ChainInfo>, mids: Seq<u64>) -> Seq<Option<u64>>
    decreases mids.len(),
{
    if mids.len() == 0 {
        Seq::empty()
    } else {
        present_vias(chains, mids.drop_last()) + (if present(chains, mids.last()) { seq![Some(mids.last())] } else { Seq::empty() })
    }
}

/// The first five of some chains.
pub open spec fn first5(s: Seq<u64>) -> Seq<u64> {
    if s.len() <= 5 { s } else { s.take(5) }
}

/// The candidate routes [`SwapRouter::find_routes`] weighs, in the order it
/// finds them: the direct route (`None`), then the routes through the first
/// five hub chains that the registry has; none where the registry lacks
/// the source or the destination.
pub open spec fn candidate_vias(chains: Seq<ChainInfo>, from_chain: u64, to_chain: u64) -> Seq<Option<u64>> {
    if present(chains, from_chain) && present(chains, to_chain) {
        seq![None] + present_vias(chains, first5(intermediates(from_chain, to_chain)))
    } else {
        Seq::empty()
    }
}

/// The legs of a candidate route.
pub open spec fn candidate_legs(chains: Seq<ChainInfo>, via: Option<u64>, from_chain: u64, from_token: Seq<u8>, to_chain: u64, to_token: Seq<u8>) -> Seq<LegModel> {
    match via {
        None => route_legs(chains, from_chain, from_token, to_chain, to_token),
        Some(m) => via_legs(chains, m, from_chain, from_token, to_chain, to_token),
    }
}

/// The output estimate of a candidate route: one slippage per route found.
pub open spec fn candidate_output(via: Option<u64>, amount: nat) -> nat {
    match via {
        None => output_estimate(amount),
        Some(_) => output_estimate(output_estimate(amount)),
    }
}

/// Every candidate route can be computed without overflow.
pub open spec fn routes_ok(chains: Seq<ChainInfo>, from_chain: u64, from_token: Seq<u8>, to_chain: u64, to_token: Seq<u8>, amount: U256) -> bool {
    let mids = intermediates(from_chain, to_chain);
    &&& direct_ok(chains, from_chain, from_token, to_chain, to_token, amount)
    &&& forall|i: int| 0 <= i < mids.len() && i < 5 ==> via_ok(chains, #[trigger] mids[i], from_chain, from_token, to_chain, to_token, amount)
}

/// Inserting the next index after every smaller-or-equal key keeps a
/// stable order.
proof fn lemma_insert_stable(keys: Seq<u64>, perm: Seq<int>, k: int, p: int)
    requires
        0 <= k < keys.len(),
        0 <= p <= k,
        stable_order(keys.take(k), perm),
        forall|q: int| 0 <= q < p ==> keys[#[trigger] perm[q]] <= keys[k],
        forall|q: int| p <= q < k ==> keys[#[trigger] perm[q]] > keys[k],
    ensures
        stable_order(keys.take(k + 1), perm.take(p).push(k) + perm.skip(p)),
{
    let np = perm.take(p).push(k) + perm.skip(p);
    let kt = keys.take(k);
    let kn = keys.take(k + 1);
    assert forall|i: int| 0 <= i < perm.len() implies kt[#[trigger] perm[i]] == keys[perm[i]] && perm[i] < k by {}
    assert forall|i: int| 0 <= i < np.len() implies #[trigger] np[i] == (if i < p { perm[i] } else if i == p { k } else { perm[i - 1] }) by {}
    assert forall|i: int| 0 <= i < np.len() implies 0 <= #[trigger] np[i] < kn.len() by {}
    assert forall|i: int, j: int| #![trigger np[i], np[j]] 0 <= i < j < np.len() implies {
        &&& np[i] != np[j]
        &&& kn[np[i]] <= kn[np[j]]
        &&& (kn[np[i]] == kn[np[j]] ==> np[i] < np[j])
    } by {
        assert(kn[np[i]] == keys[np[i]]);
        assert(kn[np[j]] == keys[np[j]]);
        if i < p && j < p {
            assert(perm[i] != perm[j]);
        } else if i < p && j == p {
        } else if i < p {
            assert(np[j] == perm[j - 1]);
            assert(kt[perm[i]] <= kt[perm[j - 1]]);
        } else if i == p {
            assert(np[j] == perm[j - 1]);
        } else {
            assert(np[i] == perm[i - 1] && np[j] == perm[j - 1]);
            assert(kt[perm[i - 1]] <= kt[perm[j - 1]]);
        }
    }
}

/// Sorts routes by score, stably; the result lists the given routes in
/// the order `perm` gives.
fn sort_by_score(routes: &mut Vec<SwapRoute>) -> (perm: Ghost<Seq<int>>)
    ensures
        stable_order(scores(old(routes)@), perm@),
        final(routes)@.len() == old(routes)@.len(),
        forall|i: int| 0 <= i < final(routes)@.len() ==> #[trigger] final(routes)@[i] == old(routes)@[perm@[i]],
{
    let ghost orig = routes@;
    let ghost keys = scores(orig);
    let ghost mut perm: Seq<int> = Seq::empty();
    let n = routes.len();
    let mut k: usize = 0;
    assert(keys.take(0) =~= Seq::<u64>::empty());
    while k < n
        invariant
            n == orig.len(),
            keys == scores(orig),
            routes@.len() == n,
            k <= n,
            stable_order(keys.take(k as int), perm),
            forall|i: int| 0 <= i < k ==> #[trigger] routes@[i] == orig[perm[i]],
            forall|i: int| k <= i < n ==> #[trigger] routes@[i] == orig[i],
        decreases n - k,
    {
        let r = routes.remove(k);
        assert(r == orig[k as int]);
        let mut p: usize = k;
        while p > 0 && routes[p - 1].score > r.score
            invariant
                p <= k,
                k < n,
                routes@.len() == n - 1,
                stable_order(keys.take(k as int), perm),
                forall|i: int| 0 <= i < k ==> #[trigger] routes@[i] == orig[perm[i]],
                forall|q: int| p <= q < k ==> (#[trigger] routes@[q]).score > r.score,
            decreases p,
        {
            p = p - 1;
        }
        proof {
            assert forall|q: int| 0 <= q < k implies keys[#[trigger] perm[q]] == routes@[q].score by {
                assert(routes@[q] == orig[perm[q]]);
                assert(keys.take(k as int)[perm[q]] == keys[perm[q]]);
            }
            assert forall|q: int| 0 <= q < p implies keys[#[trigger] perm[q]] <= keys[k as int] by {
                if q < p - 1 {
                    assert(keys.take(k as int)[perm[q]] <= keys.take(k as int)[perm[p - 1]]);
                    assert(keys[perm[p - 1]] == routes@[p - 1].score);
                }
                assert(keys[perm[q]] == routes@[q].score);
            }
            assert forall|q: int| p <= q < k implies keys[#[trigger] perm[q]] > keys[k as int] by {
                assert(keys[perm[q]] == routes@[q].score);
            }
            lemma_insert_stable(keys, perm, k as int, p as int);
        }
        let ghost before = routes@;
        routes.insert(p, r);
        proof {
            let np = perm.take(p as int).push(k as int) + perm.skip(p as int);
            assert forall|i: int| 0 <= i < k + 1 implies #[trigger] routes@[i] == orig[np[i]] by {
                if i < p {
                    assert(routes@[i] == before[i]);
                } else if i > p {
                    assert(routes@[i] == before[i - 1]);
                    assert(np[i] == perm[i - 1]);
                }
            }
            assert forall|i: int| k + 1 <= i < n implies #[trigger] routes@[i] == orig[i] by {
                assert(routes@[i] == before[i - 1]);
            }
            perm = np;
        }
        k = k + 1;
    }
    assert(keys.take(n as int) =~= keys);
    Ghost(perm)
}

/// A registry of chains the router can route between.
pub struct SwapRouter {
    /// Known liquidity pools: (chain, token0, token1, liquidity).
    pub liquidity_hints: Vec<(u64, [u8; 20], [u8; 20], U256)>,
    /// The chains the router knows.
    pub chains: Vec<ChainInfo>,
}

/// A swap leg.
fn swap_leg(from_chain: u64, to_chain: u64, from_token: [u8; 20], to_token: [u8; 20], time_ms: u64) -> (l: RouteLeg)
    ensures
        l@ == (LegModel { from_chain, to_chain, from_token: from_token@, to_token: to_token@, action: RouteAction::Swap, gas: 150000, time_ms }),
{
    RouteLeg { from_chain, to_chain, from_token, to_token, action: RouteAction::Swap, estimated_gas: U256::from_u128(150_000), estimated_time_ms: time_ms }
}

impl SwapRouter {
    /// A router over a registry of chains, with no liquidity hints.
    pub fn new(chains: Vec<ChainInfo>) -> (r: SwapRouter)
        ensures
            r.chains@ == chains@,
            r.liquidity_hints@.len() == 0,
    {
        SwapRouter { liquidity_hints: Vec::new(), chains }
    }

    /// The block time of a chain in the registry.
    pub fn get_chain(&self, id: u64) -> (r: Option<u64>)
        ensures
            r == chain_time(self.chains@, id),
    {
        let mut i: usize = 0;
        while i < self.chains.len()
            invariant
                i <= self.chains@.len(),
                forall|j: int| 0 <= j < i ==> self.chains@[j].chain_id != id,
            decreases self.chains.len() - i,
        {
            if self.chains[i].chain_id == id {
                proof {
                    reveal(chain_time);
                    let k = choose|k: int| 0 <= k < self.chains@.len() && self.chains@[k].chain_id == id && forall|j: int| 0 <= j < k ==> self.chains@[j].chain_id != id;
                    if k < i {
                        assert(self.chains@[k].chain_id != id);
                    } else if k > i {
                        assert(self.chains@[i as int].chain_id != id);
                    }
                }
                return Some(self.chains[i].block_time_ms);
            }
            i = i + 1;
        }
        proof {
            reveal(chain_time);
        }
        None
    }

    /// The best route from `from_token` on `from_chain` to `to_token` on
    /// `to_chain`: `None` when the registry lacks either chain; otherwise the
    /// legs of [`route_legs`], their totals, the score and the output
    /// estimate.
    pub fn find_route(&self, from_chain: u64, from_token: [u8; 20], to_chain: u64, to_token: [u8; 20], amount: U256) -> (r: Option<SwapRoute>)
        requires
            direct_ok(self.chains@, from_chain, from_token@, to_chain, to_token@, amount),
        ensures
            r is None <==> !(present(self.chains@, from_chain) && present(self.chains@, to_chain)),
            r matches Some(route) ==> route_matches(route, route_legs(self.chains@, from_chain, from_token@, to_chain, to_token@), from_chain, to_chain, amount, output_estimate(amount.value())),
    {
        reveal(route_matches);
        let bt_from = match self.get_chain(from_chain) {
            Some(t) => t,
            None => {
                return None;
            },
        };
        let bt_to = match self.get_chain(to_chain) {
            Some(t) => t,
            None => {
                return None;
            },
        };
        let ghost legs_spec = route_legs(self.chains@, from_chain, from_token@, to_chain, to_token@);
        let mut legs: Vec<RouteLeg> = Vec::new();
        if from_chain == to_chain {
            if !addr_eq(&from_token, &to_token) {
                legs.push(swap_leg(from_chain, to_chain, from_token, to_token, bt_from));
            }
        } else {
            let bridge = find_bridgeable_token(from_chain, &from_token);
            let dest_bridge = find_bridgeable_token(to_chain, &to_token);
            if !addr_eq(&from_token, &bridge) {
                legs.push(swap_leg(from_chain, from_chain, from_token, bridge, bt_from));
            }
            legs.push(RouteLeg {
                from_chain,
                to_chain,
                from_token: bridge,
                to_token: dest_bridge,
                action: RouteAction::Bridge,
                estimated_gas: U256::from_u128(50_000),
                estimated_time_ms: 6000,
            });
            if !addr_eq(&dest_bridge, &to_token) {
                legs.push(swap_leg(to_chain, to_chain, dest_bridge, to_token, bt_to));
            }
        }
        assert(legs_view(legs@) =~= legs_spec) by {
            reveal(route_legs);
        }
        proof {
            lemma_route_gas_bound(self.chains@, from_chain, from_token@, to_chain, to_token@);
        }
        let (total_gas, total_time_ms) = Self::totals(&legs);
        let score = score_of(total_time_ms, &total_gas);
        let estimated_output = slippage_output(&amount);
        Some(SwapRoute {
            legs,
            total_gas,
            total_time_ms,
            score,
            source_chain: from_chain,
            dest_chain: to_chain,
            input_amount: amount,
            estimated_output,
        })
    }



    /// The route through `via`: the route to its USDC, then the route from
    /// there, for the first route's output. `None` when the registry lacks
    /// the source, `via` or the destination.
    pub fn find_route_via(&self, via_chain: u64, from_chain: u64, from_token: [u8; 20], to_chain: u64, to_token: [u8; 20], amount: U256) -> (r: Option<SwapRoute>)
        requires
            via_ok(self.chains@, via_chain, from_chain, from_token@, to_chain, to_token@, amount),
        ensures
            r is None <==> !(present(self.chains@, from_chain) && present(self.chains@, via_chain) && present(self.chains@, to_chain)),
            r matches Some(route) ==> route_matches(route, via_legs(self.chains@, via_chain, from_chain, from_token@, to_chain, to_token@), from_chain, to_chain, amount, output_estimate(output_estimate(amount.value()))),
    {
        reveal(route_matches);
        let zero = [0u8; 20];
        let bridge = find_bridgeable_token(via_chain, &zero);
        assert(zero@ =~= Seq::new(20, |_i: int| 0u8));
        let leg1 = match self.find_route(from_chain, from_token, via_chain, bridge, amount) {
            Some(r) => r,
            None => {
                return None;
            },
        };
        let ghost l1 = route_legs(self.chains@, from_chain, from_token@, via_chain, bridge@);
        let ghost l2 = route_legs(self.chains@, via_chain, bridge@, to_chain, to_token@);
        proof {
            lemma_output_le(amount.value());
            lemma_route_gas_bound(self.chains@, from_chain, from_token@, via_chain, bridge@);
            lemma_route_gas_bound(self.chains@, via_chain, bridge@, to_chain, to_token@);
            lemma_totals_append(l1, l2);
            if present(self.chains@, to_chain) {
                assert(l1 + l2 == via_legs(self.chains@, via_chain, from_chain, from_token@, to_chain, to_token@));
                lemma_fits_part(l1, l2);
                assert(amount_fits(leg1.estimated_output)) by (nonlinear_arith)
                    requires
                        leg1.estimated_output.value() <= amount.value(),
                        amount.value() * 9950 < two_128() * two_128();
            }
        }
        let leg2 = match self.find_route(via_chain, bridge, to_chain, to_token, leg1.estimated_output) {
            Some(r) => r,
            None => {
                return None;
            },
        };
        let mut legs = leg1.legs;
        let mut rest = leg2.legs;
        let ghost la = legs@;
        let ghost lb = rest@;
        legs.append(&mut rest);
        assert(legs_view(legs@) =~= legs_view(la) + legs_view(lb));
        let total_gas = leg1.total_gas.saturating_add(&leg2.total_gas);
        let total_time_ms = leg1.total_time_ms + leg2.total_time_ms;
        let score = score_of(total_time_ms, &total_gas);
        Some(SwapRoute {
            legs,
            total_gas,
            total_time_ms,
            score,
            source_chain: from_chain,
            dest_chain: to_chain,
            input_amount: amount,
            estimated_output: leg2.estimated_output,
        })
    }


    /// Up to `max_routes` routes, best score first: the direct route and the
    /// routes through the first five hub chains (see [`candidate_vias`]),
    /// stably sorted by score.
    pub fn find_routes(&self, from_chain: u64, from_token: [u8; 20], to_chain: u64, to_token: [u8; 20], amount: U256, max_routes: usize) -> (rs: Vec<SwapRoute>)
        requires
            routes_ok(self.chains@, from_chain, from_token@, to_chain, to_token@, amount),
        ensures
            exists|cands: Seq<SwapRoute>, perm: Seq<int>| #![trigger stable_order(scores(cands), perm)] {
                let vias = candidate_vias(self.chains@, from_chain, to_chain);
                &&& cands.len() == vias.len()
                &&& forall|i: int| 0 <= i < cands.len() ==> route_matches(#[trigger] cands[i], candidate_legs(self.chains@, vias[i], from_chain, from_token@, to_chain, to_token@), from_chain, to_chain, amount, candidate_output(vias[i], amount.value()))
                &&& stable_order(scores(cands), perm)
                &&& rs@.len() == (if max_routes < cands.len() { max_routes as int } else { cands.len() as int })
                &&& forall|i: int| 0 <= i < rs@.len() ==> #[trigger] rs@[i] == cands[perm[i]]
            },
            forall|i: int, j: int| 0 <= i < j < rs@.len() ==> (#[trigger] rs@[i]).score <= (#[trigger] rs@[j]).score,
    {
        let ghost chains = self.chains@;
        let ghost ft = from_token@;
        let ghost tt = to_token@;
        let mut routes: Vec<SwapRoute> = Vec::new();
        let ghost mut vias: Seq<Option<u64>> = Seq::empty();
        let direct = self.find_route(from_chain, from_token, to_chain, to_token, amount);
        match direct {
            Some(d) => {
                routes.push(d);
                proof {
                    vias = seq![None];
                }
            },
            None => {},
        }
        let mids = find_intermediate_chains(from_chain, to_chain);
        let ghost all = present(chains, from_chain) && present(chains, to_chain);
        let mut k: usize = 0;
        assert(mids@.take(0) =~= Seq::<u64>::empty());
        while k < mids.len() && k < 5
            invariant
                chains == self.chains@,
                ft == from_token@,
                tt == to_token@,
                mids@ == intermediates(from_chain, to_chain),
                routes_ok(chains, from_chain, ft, to_chain, tt, amount),
                k <= mids@.len(),
                k <= 5,
                all == (present(chains, from_chain) && present(chains, to_chain)),
                vias == (if all { seq![None] + present_vias(chains, mids@.take(k as int)) } else { Seq::<Option<u64>>::empty() }),
                routes@.len() == vias.len(),
                forall|i: int| 0 <= i < routes@.len() ==> route_matches(#[trigger] routes@[i], candidate_legs(chains, vias[i], from_chain, ft, to_chain, tt), from_chain, to_chain, amount, candidate_output(vias[i], amount.value())),
            decreases 5 - k,
        {
            let mid = mids[k];
            let via = self.find_route_via(mid, from_chain, from_token, to_chain, to_token, amount);
            proof {
                assert(mids@.take(k + 1).drop_last() =~= mids@.take(k as int));
            }
            match via {
                Some(r) => {
                    routes.push(r);
                    proof {
                        vias = vias.push(Some(mid));
                        assert(seq![None] + present_vias(chains, mids@.take(k + 1)) =~= (seq![None] + present_vias(chains, mids@.take(k as int))).push(Some(mid)));
                    }
                },
                None => {
                    proof {
                        if all {
                            assert(present_vias(chains, mids@.take(k + 1)) =~= present_vias(chains, mids@.take(k as int)));
                        }
                    }
                },
            }
            k = k + 1;
        }
        proof {
            if all {
                assert(mids@.take(k as int) =~= first5(mids@));
            }
            assert(vias == candidate_vias(chains, from_chain, to_chain));
        }
        let ghost cands = routes@;
        let perm = sort_by_score(&mut routes);
        routes.truncate(max_routes);
        assert(stable_order(scores(cands), perm@));
        assert forall|i: int, j: int| 0 <= i < j < routes@.len() implies (#[trigger] routes@[i]).score <= (#[trigger] routes@[j]).score by {
            assert(scores(cands)[perm@[i]] <= scores(cands)[perm@[j]]);
        }
        routes
    }

    /// A quote for a swap: the route of [`SwapRouter::find_route`], its output,
    /// a fixed 0.5% price impact, and no expiry.
    pub fn quote(&self, from_chain: u64, from_token: [u8; 20], to_chain: u64, to_token: [u8; 20], amount: U256) -> (q: Option<QuoteResult>)
        requires
            direct_ok(self.chains@, from_chain, from_token@, to_chain, to_token@, amount),
        ensures
            q is None <==> !(present(self.chains@, from_chain) && present(self.chains@, to_chain)),
            q matches Some(quote) ==> {
                &&& route_matches(quote.route, route_legs(self.chains@, from_chain, from_token@, to_chain, to_token@), from_chain, to_chain, amount, output_estimate(amount.value()))
                &&& quote.input_amount == amount
                &&& quote.output_amount == quote.route.estimated_output
                &&& quote.price_impact.value() == 50
                &&& quote.expires_at == 0
            },
    {
        reveal(route_matches);
        let route = match self.find_route(from_chain, from_token, to_chain, to_token, amount) {
            Some(r) => r,
            None => {
                return None;
            },
        };
        let output_amount = route.estimated_output;
        Some(QuoteResult { input_amount: amount, output_amount, price_impact: U256::from_u128(50), route, expires_at: 0 })
    }

    /// The DEX swap payload of a leg (the sender is not encoded).
    pub fn encode_swap_payload(&self, leg: &RouteLeg, sender: [u8; 20], amount: U256) -> (p: ComitPayload)
        requires
            leg.action == RouteAction::Swap,
        ensures
            p@ == leg_payload(leg@, sender@, amount),
    {
        let mut calldata: Vec<u8> = Vec::new();
        push_selector(&mut calldata, 0x38, 0xed, 0x17, 0x39);
        push_u256_be(&mut calldata, &amount);
        let zeros = [0u8; 32];
        push_bytes(&mut calldata, &zeros);
        assert(zeros@ =~= zero32());
        assert(calldata@ =~= seq![0x38u8, 0xed, 0x17, 0x39] + be_bytes32(amount) + zero32());
        ComitPayload {
            chain_id: leg.from_chain,
            target: get_dex_router(leg.from_chain),
            calldata,
            value: U256::zero(),
            gas_limit: 200_000,
        }
    }

    /// The X3 bridge payload of a leg (the sender is not encoded).
    pub fn encode_bridge_payload(&self, leg: &RouteLeg, sender: [u8; 20], recipient: [u8; 20], amount: U256) -> (p: ComitPayload)
        requires
            leg.action == RouteAction::Bridge,
        ensures
            p@ == leg_payload(leg@, recipient@, amount),
    {
        let mut calldata: Vec<u8> = Vec::new();
        push_selector(&mut calldata, 0xBB, 0xBB, 0xBB, 0xBB);
        push_bytes(&mut calldata, &recipient);
        push_u256_be(&mut calldata, &amount);
        push_u64_be(&mut calldata, leg.to_chain);
        assert(calldata@ =~= seq![0xBBu8, 0xBB, 0xBB, 0xBB] + recipient@ + be_bytes32(amount) + be_u64(leg.to_chain));
        ComitPayload {
            chain_id: leg.from_chain,
            target: get_x3_bridge(leg.from_chain),
            calldata,
            value: U256::zero(),
            gas_limit: 100_000,
        }
    }

    /// The WETH `deposit()` payload of a leg, sending `amount`.
    pub fn encode_wrap_payload(&self, leg: &RouteLeg, amount: U256) -> (p: ComitPayload)
        requires
            leg.action == RouteAction::Wrap,
        ensures
            forall|r: Seq<u8>| p@ == #[trigger] leg_payload(leg@, r, amount),
    {
        let mut calldata: Vec<u8> = Vec::new();
        push_selector(&mut calldata, 0xd0, 0xe3, 0x0d, 0xb0);
        assert(calldata@ =~= seq![0xd0u8, 0xe3, 0x0d, 0xb0]);
        ComitPayload { chain_id: leg.from_chain, target: get_weth(leg.from_chain), calldata, value: amount, gas_limit: 50_000 }
    }

    /// The WETH `withdraw(uint256)` payload of a leg.
    pub fn encode_unwrap_payload(&self, leg: &RouteLeg, amount: U256) -> (p: ComitPayload)
        requires
            leg.action == RouteAction::Unwrap,
        ensures
            forall|r: Seq<u8>| p@ == #[trigger] leg_payload(leg@, r, amount),
    {
        let mut calldata: Vec<u8> = Vec::new();
        push_selector(&mut calldata, 0x2e, 0x1a, 0x7d, 0x4d);
        push_u256_be(&mut calldata, &amount);
        assert(calldata@ =~= seq![0x2eu8, 0x1a, 0x7d, 0x4d] + be_bytes32(amount));
        ComitPayload {
            chain_id: leg.from_chain,
            target: get_weth(leg.from_chain),
            calldata,
            value: U256::zero(),
            gas_limit: 50_000,
        }
    }

    /// Keccak-256 of the nonce and the payloads' commitments.
    pub fn calculate_prepare_root(&self, payloads: &Vec<ComitPayload>, nonce: u64) -> (h: [u8; 32])
        ensures
            h@ == keccak_256_spec(prepare_data(payloads_view(payloads@), nonce)),
    {
        let mut data: Vec<u8> = Vec::new();
        push_u64_be(&mut data, nonce);
        let mut i: usize = 0;
        while i < payloads.len()
            invariant
                i <= payloads@.len(),
                data@ == be_u64(nonce) + commitments(payloads_view(payloads@.take(i as int))),
            decreases payloads.len() - i,
        {
            let p = &payloads[i];
            proof {
                assert(payloads_view(payloads@.take(i + 1)).drop_last() =~= payloads_view(payloads@.take(i as int)));
            }
            push_u64_be(&mut data, p.chain_id);
            push_bytes(&mut data, &p.target);
            push_bytes(&mut data, p.calldata.as_slice());
            assert(data@ =~= be_u64(nonce) + commitments(payloads_view(payloads@.take(i + 1))));
            i = i + 1;
        }
        assert(payloads@.take(payloads@.len() as int) =~= payloads@);
        keccak_256(data.as_slice())
    }

    /// The atomic bundle that executes a route: one payload per leg for the
    /// route's input amount, and the prepare root over them and the nonce.
    pub fn build_comit_bundle(&self, route: &SwapRoute, sender: [u8; 20], recipient: [u8; 20], nonce: u64) -> (b: AtomicSwapBundle)
        ensures
            payloads_view(b.payloads@) == legs_view(route.legs@).map_values(|l: LegModel| leg_payload(l, recipient@, route.input_amount)),
            b.prepare_root@ == keccak_256_spec(prepare_data(payloads_view(b.payloads@), nonce)),
            b.nonce == nonce,
            b.total_value == route.input_amount,
    {
        let mut payloads: Vec<ComitPayload> = Vec::new();
        let mut i: usize = 0;
        while i < route.legs.len()
            invariant
                i <= route.legs@.len(),
                payloads@.len() == i,
                payloads_view(payloads@) == legs_view(route.legs@.take(i as int)).map_values(|l: LegModel| leg_payload(l, recipient@, route.input_amount)),
            decreases route.legs.len() - i,
        {
            let leg = &route.legs[i];
            let p = match leg.action {
                RouteAction::Swap => self.encode_swap_payload(leg, sender, route.input_amount),
                RouteAction::Bridge => self.encode_bridge_payload(leg, sender, recipient, route.input_amount),
                RouteAction::Wrap => self.encode_wrap_payload(leg, route.input_amount),
                RouteAction::Unwrap => self.encode_unwrap_payload(leg, route.input_amount),
            };
            assert(p@ == leg_payload(leg@, recipient@, route.input_amount));
            let ghost prev = payloads@;
            payloads.push(p);
            proof {
                let f = |l: LegModel| leg_payload(l, recipient@, route.input_amount);
                let a = legs_view(route.legs@.take(i + 1)).map_values(f);
                let b = legs_view(route.legs@.take(i as int)).map_values(f);
                assert(payloads_view(prev) == b);
                assert forall|k: int| 0 <= k < i + 1 implies #[trigger] payloads_view(payloads@)[k] == a[k] by {
                    if k < i {
                        assert(payloads@[k] == prev[k]);
                        assert(payloads_view(prev)[k] == b[k]);
                        assert(route.legs@.take(i + 1)[k] == route.legs@.take(i as int)[k]);
                    } else {
                        assert(route.legs@.take(i + 1)[k] == *leg);
                    }
                }
            }
            assert(payloads_view(payloads@) =~= legs_view(route.legs@.take(i + 1)).map_values(|l: LegModel| leg_payload(l, recipient@, route.input_amount)));
            i = i + 1;
        }
        assert(route.legs@.take(route.legs@.len() as int) =~= route.legs@);
        let prepare_root = self.calculate_prepare_root(&payloads, nonce);
        AtomicSwapBundle { payloads, prepare_root, nonce, total_value: route.input_amount }
    }

    /// The total gas and time of some legs.
    fn totals(legs: &Vec<RouteLeg>) -> (r: (U256, u64))
        requires
            legs_time(legs_view(legs@)) <= u64::MAX,
            legs_gas(legs_view(legs@)) < two_128(),
        ensures
            r.0.value() == legs_gas(legs_view(legs@)),
            r.1 == legs_time(legs_view(legs@)),
    {
        let mut gas = U256::zero();
        let mut time: u64 = 0;
        let mut i: usize = 0;
        while i < legs.len()
            invariant
                i <= legs@.len(),
                legs_time(legs_view(legs@)) <= u64::MAX,
                legs_gas(legs_view(legs@)) < two_128(),
                gas.value() == legs_gas(legs_view(legs@.take(i as int))),
                time == legs_time(legs_view(legs@.take(i as int))),
            decreases legs.len() - i,
        {
            proof {
                assert(legs_view(legs@.take(i + 1)).drop_last() =~= legs_view(legs@.take(i as int)));
                lemma_prefix_totals(legs_view(legs@), i + 1);
                assert(legs_view(legs@.take(i + 1)) =~= legs_view(legs@).take(i + 1));
            }
            let l = legs[i];
            gas = gas.saturating_add(&l.estimated_gas);
            time = time + l.estimated_time_ms;
            i = i + 1;
        }
        proof {
            assert(legs@.take(legs@.len() as int) =~= legs@);
        }
        (gas, time)
    }
}

/// A route's gas is at most two swaps and a bridge hop.
proof fn lemma_route_gas_bound(chains: Seq<ChainInfo>, from_chain: u64, from_token: Seq<u8>, to_chain: u64, to_token: Seq<u8>)
    ensures
        legs_gas(route_legs(chains, from_chain, from_token, to_chain, to_token)) <= 350000,
{
    reveal_with_fuel(legs_gas, 4);
    reveal(route_legs);
    let legs = route_legs(chains, from_chain, from_token, to_chain, to_token);
    assert(legs.len() <= 3);
    if legs.len() >= 1 {
        assert(legs.drop_last().len() == legs.len() - 1);
    }
    if legs.len() >= 2 {
        assert(legs.drop_last().drop_last().len() == legs.len() - 2);
    }
    if legs.len() == 3 {
        assert(legs.drop_last().drop_last().drop_last().len() == 0);
    }
    assert(forall|i: int| 0 <= i < legs.len() ==> #[trigger] legs[i].gas <= 150000);
}

/// The totals of a prefix are at most those of the whole.
proof fn lemma_prefix_totals(legs: Seq<LegModel>, n: int)
    requires
        0 <= n <= legs.len(),
    ensures
        legs_time(legs.take(n)) <= legs_time(legs),
        legs_gas(legs.take(n)) <= legs_gas(legs),
    decreases legs.len() - n,
{
    if n < legs.len() {
        lemma_prefix_totals(legs, n + 1);
        assert(legs.take(n + 1).drop_last() =~= legs.take(n));
    } else {
        assert(legs.take(n) =~= legs);
    }
}

/// A quote for a swap over a registry of chains (see [`SwapRouter::quote`]).
pub fn quote_swap(chains: Vec<ChainInfo>, from_chain: u64, from_token: [u8; 20], to_chain: u64, to_token: [u8; 20], amount: U256) -> (q: Option<QuoteResult>)
    requires
        direct_ok(chains@, from_chain, from_token@, to_chain, to_token@, amount),
    ensures
        q is None <==> !(present(chains@, from_chain) && present(chains@, to_chain)),
        q matches Some(quote) ==> {
            &&& route_matches(quote.route, route_legs(chains@, from_chain, from_token@, to_chain, to_token@), from_chain, to_chain, amount, output_estimate(amount.value()))
            &&& quote.input_amount == amount
            &&& quote.output_amount == quote.route.estimated_output
            &&& quote.price_impact.value() == 50
            &&& quote.expires_at == 0
        },
{
    SwapRouter::new(chains).quote(from_chain, from_token, to_chain, to_token, amount)
}

/// The direct route of a swap over a registry of chains (see
/// [`SwapRouter::find_route`]).
pub fn find_best_route(chains: Vec<ChainInfo>, from_chain: u64, from_token: [u8; 20], to_chain: u64, to_token: [u8; 20], amount: U256) -> (r: Option<SwapRoute>)
    requires
        direct_ok(chains@, from_chain, from_token@, to_chain, to_token@, amount),
    ensures
        r is None <==> !(present(chains@, from_chain) && present(chains@, to_chain)),
        r matches Some(route) ==> route_matches(route, route_legs(chains@, from_chain, from_token@, to_chain, to_token@), from_chain, to_chain, amount, output_estimate(amount.value())),
{
    SwapRouter::new(chains).find_route(from_chain, from_token, to_chain, to_token, amount)
}

/// The atomic bundle of the direct route of a swap (see
/// [`SwapRouter::build_comit_bundle`]); `None` where there is no route.
pub fn build_atomic_swap(chains: Vec<ChainInfo>, from_chain: u64, from_token: [u8; 20], to_chain: u64, to_token: [u8; 20], amount: U256, sender: [u8; 20], recipient: [u8; 20], nonce: u64) -> (b: Option<AtomicSwapBundle>)
    requires
        direct_ok(chains@, from_chain, from_token@, to_chain, to_token@, amount),
    ensures
        b is None <==> !(present(chains@, from_chain) && present(chains@, to_chain)),
        b matches Some(bundle) ==> {
            let legs = route_legs(chains@, from_chain, from_token@, to_chain, to_token@);
            &&& payloads_view(bundle.payloads@) == legs.map_values(|l: LegModel| leg_payload(l, recipient@, amount))
            &&& bundle.prepare_root@ == keccak_256_spec(prepare_data(payloads_view(bundle.payloads@), nonce))
            &&& bundle.nonce == nonce
            &&& bundle.total_value == amount
        },
{
    let router = SwapRouter::new(chains);
    let route = match router.find_route(from_chain, from_token, to_chain, to_token, amount) {
        Some(r) => r,
        None => {
            return None;
        },
    };
    proof {
        reveal(route_matches);
    }
    Some(router.build_comit_bundle(&route, sender, recipient, nonce))
}

/// A quoted output is below a positive input: the 0.5% slippage takes at
/// least one unit.
pub proof fn lemma_output_below_input(amount: nat)
    requires
        amount > 0,
    ensures
        output_estimate(amount) < amount,
{
    assert(amount * 9950 / 10000 < amount) by (nonlinear_arith)
        requires amount > 0;
}

} // verus!
