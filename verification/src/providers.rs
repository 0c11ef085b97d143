use vstd::prelude::*;
use crate::address::Address;

pub mod balancy;
pub mod calldata;
pub mod general;

verus! {

/// The EVM chains this service knows of. A chain is usable only where a
/// provider is registered for it.
#[derive(PartialEq, Eq, Structural, Clone, Copy, Debug, Hash)]
pub enum EvmChain {
    Ethereum,
    Polygon,
    Gnosis,
    Bsc,
    Fantom,
    Avalanche,
    Heco,
    Harmony,
    Goerli,
    Arbitrum,
    Celo,
    Optimism,
    Moonriver,
    Rinkeby,
    Metis,
    Cronos,
    Boba,
    Palm,
}

impl EvmChain {
    /// The written name of this chain.
    pub open spec fn spec_name(self) -> Seq<char> {
        match self {
            EvmChain::Ethereum => "Ethereum"@,
            EvmChain::Polygon => "Polygon"@,
            EvmChain::Gnosis => "Gnosis"@,
            EvmChain::Bsc => "Bsc"@,
            EvmChain::Fantom => "Fantom"@,
            EvmChain::Avalanche => "Avalanche"@,
            EvmChain::Heco => "Heco"@,
            EvmChain::Harmony => "Harmony"@,
            EvmChain::Goerli => "Goerli"@,
            EvmChain::Arbitrum => "Arbitrum"@,
            EvmChain::Celo => "Celo"@,
            EvmChain::Optimism => "Optimism"@,
            EvmChain::Moonriver => "Moonriver"@,
            EvmChain::Rinkeby => "Rinkeby"@,
            EvmChain::Metis => "Metis"@,
            EvmChain::Cronos => "Cronos"@,
            EvmChain::Boba => "Boba"@,
            EvmChain::Palm => "Palm"@,
        }
    }

    /// The written name of this chain, as `spec_name` states.
    pub fn name(&self) -> (r: &'static str)
        ensures
            r@ == self.spec_name(),
    {
        match self {
            EvmChain::Ethereum => "Ethereum",
            EvmChain::Polygon => "Polygon",
            EvmChain::Gnosis => "Gnosis",
            EvmChain::Bsc => "Bsc",
            EvmChain::Fantom => "Fantom",
            EvmChain::Avalanche => "Avalanche",
            EvmChain::Heco => "Heco",
            EvmChain::Harmony => "Harmony",
            EvmChain::Goerli => "Goerli",
            EvmChain::Arbitrum => "Arbitrum",
            EvmChain::Celo => "Celo",
            EvmChain::Optimism => "Optimism",
            EvmChain::Moonriver => "Moonriver",
            EvmChain::Rinkeby => "Rinkeby",
            EvmChain::Metis => "Metis",
            EvmChain::Cronos => "Cronos",
            EvmChain::Boba => "Boba",
            EvmChain::Palm => "Palm",
        }
    }
}

/// A chain is also called by its older, shorter name in parts of the
/// data model.
pub type Chain = EvmChain;

/// Connection parameters of the aggregating multicall contract of a chain.
pub struct MulticallParams {
    pub rpc_url: String,
    pub address: Address,
}

/// Connection parameters for one chain: the JSON-RPC endpoint and the
/// multicall contract. The transport built from them lives outside the
/// library.
pub struct Provider {
    pub chain: EvmChain,
    pub multi: MulticallParams,
}

/// The chain-to-provider registry handed to the evaluator. It is built
/// once at start-up and read everywhere.
pub struct ProviderRegistry {
    pub providers: Vec<Provider>,
}

impl ProviderRegistry {
    /// Whether a provider is registered for `chain`.
    pub open spec fn spec_supports(self, chain: EvmChain) -> bool {
        exists|i: int| 0 <= i < self.providers@.len() && self.providers@[i].chain == chain
    }

    /// An empty registry, supporting no chain.
    pub fn new() -> (r: ProviderRegistry)
        ensures
            r.providers@.len() == 0,
            forall|c: EvmChain| !r.spec_supports(c),
    {
        ProviderRegistry { providers: Vec::new() }
    }

    /// Registers one more provider.
    pub fn register(&mut self, provider: Provider)
        ensures
            final(self).providers@ == old(self).providers@.push(provider),
            forall|c: EvmChain| final(self).spec_supports(c) <==> (old(self).spec_supports(c)
                || provider.chain == c),
    {
        self.providers.push(provider);
        assert forall|c: EvmChain| self.spec_supports(c) <==> (old(self).spec_supports(c)
            || provider.chain == c) by {
            if old(self).spec_supports(c) {
                let i = choose|i: int|
                    0 <= i < old(self).providers@.len() && old(self).providers@[i].chain == c;
                assert(self.providers@[i].chain == c);
            }
            if provider.chain == c {
                assert(self.providers@[self.providers@.len() - 1].chain == c);
            }
            if self.spec_supports(c) {
                let i = choose|i: int|
                    0 <= i < self.providers@.len() && self.providers@[i].chain == c;
                if i < old(self).providers@.len() {
                    assert(old(self).providers@[i].chain == c);
                }
            }
        }
    }

    /// The first provider registered for `chain`, if any.
    pub fn get(&self, chain: EvmChain) -> (r: Option<&Provider>)
        ensures
            r is Some <==> self.spec_supports(chain),
            r is Some ==> r->0.chain == chain,
    {
        let mut i: usize = 0;
        while i < self.providers.len()
            invariant
                i <= self.providers@.len(),
                forall|j: int| 0 <= j < i ==> self.providers@[j].chain != chain,
        decreases self.providers@.len() - i,
        {
            if self.providers[i].chain == chain {
                return Some(&self.providers[i]);
            }
            i = i + 1;
        }
        None
    }

    /// Whether a provider is registered for `chain`, as `spec_supports`
    /// states.
    pub fn supports(&self, chain: EvmChain) -> (r: bool)
        ensures
            r == self.spec_supports(chain),
    {
        match self.get(chain) {
            Some(_) => true,
            None => false,
        }
    }
}


/// Parses a decimal text into a 256-bit number, as the wire form writes
/// token identifiers and raw amounts. Yields the number exactly when the
/// text is nonempty, all digits, and fits in 256 bits.
pub fn u256_from_str(s: &str) -> (r: Option<crate::uint::U256>)
    ensures
        r is Some <==> (s@.len() > 0 && crate::amount::all_digits(s@)
            && crate::amount::digits_val(s@) < crate::uint::u256_limit()),
        r is Some ==> r->0.val() == crate::amount::digits_val(s@),
{
    crate::uint::U256::from_dec_str(s)
}

} // verus!
