//! A network that does nothing, for wiring together parts that ask for a
//! network and never use one.

use crate::primitives::H256;
use crate::rlp::bigendian::lemma_be_value_skip_zeros;
use crate::signature::U256;
use vstd::prelude::*;

verus! {

/// The port that nodes listen on by default.
pub const DEFAULT_DISCOVERY_PORT: u16 = 30303;

/// The chain id of the main network.
pub const MAINNET_CHAIN_ID: u64 = 1;

/// The version of the wire protocol that the network reports.
pub const PROTOCOL_VERSION: u64 = 5;

/// An address of the fourth version of the internet protocol, with a port.
#[derive(Clone, Copy, Debug, PartialEq, Eq)]
pub struct LocalAddress {
    pub ip: [u8; 4],
    pub port: u16,
}

/// What a node knows of the chain it follows.
#[derive(Clone, Debug, PartialEq, Eq)]
pub struct EthProtocolInfo {
    /// The total difficulty of the chain.
    pub difficulty: U256,
    /// The hash of the best block.
    pub head: H256,
    /// The id of the network.
    pub network: u64,
    /// The hash of the first block.
    pub genesis: H256,
}

/// The status that a network reports.
#[derive(Clone, Debug, PartialEq, Eq)]
pub struct NetworkStatus {
    /// The name and version of the client.
    pub client_version: String,
    /// The version of the wire protocol.
    pub protocol_version: u64,
    /// What the node knows of its chain.
    pub eth_protocol_info: EthProtocolInfo,
}

/// A network that does nothing: it has no peers, follows the main network and
/// is never syncing.
#[derive(Debug, Clone)]
#[non_exhaustive]
pub struct NoopNetwork;

impl Default for NoopNetwork {
    fn default() -> (network: NoopNetwork) {
        NoopNetwork
    }
}

impl NoopNetwork {
    /// The address that the network listens on: no address in particular, at
    /// the default port.
    pub fn local_addr(&self) -> (addr: LocalAddress)
        ensures
            addr.ip@ == seq![0u8, 0u8, 0u8, 0u8],
            addr.port == DEFAULT_DISCOVERY_PORT,
    {
        let addr = LocalAddress { ip: [0u8; 4], port: DEFAULT_DISCOVERY_PORT };
        assert(addr.ip@ =~= seq![0u8, 0u8, 0u8, 0u8]);
        addr
    }

    /// The status of the network: a test client on the main network that knows
    /// no block.
    pub fn network_status(&self) -> (status: NetworkStatus)
        ensures
            status.client_version@ == "reth-test"@,
            status.protocol_version == PROTOCOL_VERSION,
            status.eth_protocol_info.network == MAINNET_CHAIN_ID,
            status.eth_protocol_info.difficulty@ == 0,
            status.eth_protocol_info.head@ == Seq::new(32, |i: int| 0u8),
            status.eth_protocol_info.genesis@ == Seq::new(32, |i: int| 0u8),
    {
        let zero: H256 = [0u8; 32];
        let difficulty = U256 { be_bytes: [0u8; 32] };
        proof {
            lemma_be_value_skip_zeros(difficulty.be_bytes@, 32);
            assert(difficulty.be_bytes@.skip(32) =~= Seq::<u8>::empty());
            assert(zero@ =~= Seq::new(32, |i: int| 0u8));
        }
        NetworkStatus {
            client_version: "reth-test".to_string(),
            protocol_version: PROTOCOL_VERSION,
            eth_protocol_info: EthProtocolInfo {
                difficulty,
                head: zero,
                network: MAINNET_CHAIN_ID,
                genesis: zero,
            },
        }
    }

    /// The id of the chain: that of the main network.
    pub fn chain_id(&self) -> (id: u64)
        ensures
            id == MAINNET_CHAIN_ID,
    {
        MAINNET_CHAIN_ID
    }

    /// Whether the network is syncing: never.
    pub fn is_syncing(&self) -> (syncing: bool)
        ensures
            !syncing,
    {
        false
    }

    /// Whether the network is in its first sync: never.
    pub fn is_initially_syncing(&self) -> (syncing: bool)
        ensures
            !syncing,
    {
        false
    }

    /// The number of peers: none.
    pub fn num_connected_peers(&self) -> (peers: usize)
        ensures
            peers == 0,
    {
        0
    }
}

} // verus!
