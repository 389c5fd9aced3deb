//! The cap on the gas of calls that only simulate execution.

use vstd::prelude::*;

verus! {

/// The default cap on the gas of a simulated call. It is above the gas limit
/// of a block, so that calls may be larger than any transaction.
pub const RPC_DEFAULT_GAS_CAP: u64 = 50_000_000;

/// A cap on the gas of a simulated call.
#[derive(Debug, Clone, Copy)]
pub struct GasCap(u64);

impl GasCap {
    /// The cap, in units of gas.
    pub closed spec fn value(self) -> u64 {
        self.0
    }

    /// The cap, in units of gas.
    pub fn get(self) -> (cap: u64)
        ensures
            cap == self.value(),
    {
        self.0
    }
}

impl Default for GasCap {
    /// The default cap.
    fn default() -> (cap: GasCap)
        ensures
            cap.value() == RPC_DEFAULT_GAS_CAP,
    {
        GasCap(RPC_DEFAULT_GAS_CAP)
    }
}

impl From<u64> for GasCap {
    fn from(gas_cap: u64) -> (cap: GasCap) {
        GasCap(gas_cap)
    }
}

impl vstd::std_specs::convert::FromSpecImpl<u64> for GasCap {
    open spec fn obeys_from_spec() -> bool {
        true
    }

    closed spec fn from_spec(gas_cap: u64) -> GasCap {
        GasCap(gas_cap)
    }
}

impl From<GasCap> for u64 {
    fn from(gas_cap: GasCap) -> (cap: u64) {
        gas_cap.0
    }
}

impl vstd::std_specs::convert::FromSpecImpl<GasCap> for u64 {
    open spec fn obeys_from_spec() -> bool {
        true
    }

    closed spec fn from_spec(gas_cap: GasCap) -> u64 {
        gas_cap.0
    }
}

/// A cap made from a number holds that number, and gives it back.
pub proof fn lemma_gas_cap_conversions(gas_cap: u64, cap: GasCap)
    ensures
        <GasCap as vstd::std_specs::convert::FromSpec<u64>>::from_spec(gas_cap).value() == gas_cap,
        <u64 as vstd::std_specs::convert::FromSpec<GasCap>>::from_spec(cap) == cap.value(),
{
}

} // verus!
