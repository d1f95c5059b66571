//! Hard forks, the feature flags they switch on, and the selected execution configuration.

use vstd::prelude::*;

verus! {

/// Ethereum hard forks in activation order.
#[derive(Clone, Copy, Debug, PartialEq, Eq, Hash, Structural)]
pub enum SpecId {
    FRONTIER,
    FRONTIER_THAWING,
    HOMESTEAD,
    DAO_FORK,
    TANGERINE,
    SPURIOUS_DRAGON,
    BYZANTIUM,
    CONSTANTINOPLE,
    PETERSBURG,
    ISTANBUL,
    MUIR_GLACIER,
    BERLIN,
    LONDON,
    ARROW_GLACIER,
    GRAY_GLACIER,
    MERGE,
    SHANGHAI,
    CANCUN,
    PRAGUE,
    OSAKA,
    AMSTERDAM,
}

impl SpecId {
    /// Position of the fork in activation order.
    pub open spec fn spec_order(self) -> u8 {
        match self {
            SpecId::FRONTIER => 0,
            SpecId::FRONTIER_THAWING => 1,
            SpecId::HOMESTEAD => 2,
            SpecId::DAO_FORK => 3,
            SpecId::TANGERINE => 4,
            SpecId::SPURIOUS_DRAGON => 5,
            SpecId::BYZANTIUM => 6,
            SpecId::CONSTANTINOPLE => 7,
            SpecId::PETERSBURG => 8,
            SpecId::ISTANBUL => 9,
            SpecId::MUIR_GLACIER => 10,
            SpecId::BERLIN => 11,
            SpecId::LONDON => 12,
            SpecId::ARROW_GLACIER => 13,
            SpecId::GRAY_GLACIER => 14,
            SpecId::MERGE => 15,
            SpecId::SHANGHAI => 16,
            SpecId::CANCUN => 17,
            SpecId::PRAGUE => 18,
            SpecId::OSAKA => 19,
            SpecId::AMSTERDAM => 20,
        }
    }

    /// Position of the fork in activation order.
    pub fn order(self) -> (r: u8)
        ensures
            r == self.spec_order(),
    {
        match self {
            SpecId::FRONTIER => 0,
            SpecId::FRONTIER_THAWING => 1,
            SpecId::HOMESTEAD => 2,
            SpecId::DAO_FORK => 3,
            SpecId::TANGERINE => 4,
            SpecId::SPURIOUS_DRAGON => 5,
            SpecId::BYZANTIUM => 6,
            SpecId::CONSTANTINOPLE => 7,
            SpecId::PETERSBURG => 8,
            SpecId::ISTANBUL => 9,
            SpecId::MUIR_GLACIER => 10,
            SpecId::BERLIN => 11,
            SpecId::LONDON => 12,
            SpecId::ARROW_GLACIER => 13,
            SpecId::GRAY_GLACIER => 14,
            SpecId::MERGE => 15,
            SpecId::SHANGHAI => 16,
            SpecId::CANCUN => 17,
            SpecId::PRAGUE => 18,
            SpecId::OSAKA => 19,
            SpecId::AMSTERDAM => 20,
        }
    }

    pub open spec fn spec_enables(self, other: SpecId) -> bool {
        self.spec_order() >= other.spec_order()
    }

    /// Returns whether `other` is active at this fork, i.e. this fork is `other` or later.
    pub fn enables(self, other: SpecId) -> (r: bool)
        ensures
            r == self.spec_enables(other),
    {
        self.order() >= other.order()
    }
}

/// Protocol rule switches derived from the active fork.
#[derive(Clone, Copy, Debug, PartialEq, Eq, Hash, Structural)]
pub struct EvmFeatures {
    /// EIP-2: Homestead transaction and contract-creation rules.
    pub eip2: bool,
    /// EIP-161: state-clearing of touched empty accounts.
    pub eip161: bool,
    /// EIP-170: the contract code size limit.
    pub code_size_check: bool,
    /// EIP-2929: cold and warm state access.
    pub eip2929: bool,
    /// EIP-3541: contract code starting with `0xEF` is rejected.
    pub eip3541: bool,
    /// EIP-6780: `SELFDESTRUCT` only destroys accounts created in the same transaction.
    pub eip6780: bool,
    /// EIP-7708: ETH transfers and burns emit logs.
    pub eip7708: bool,
    /// EIP-7708 burn logs are emitted at transaction finalization.
    pub eip7708_delayed_burn: bool,
    /// EIP-8037: block gas is the larger of regular and state gas.
    pub eip8037: bool,
}

impl EvmFeatures {
    pub open spec fn spec_for_spec(spec_id: SpecId) -> EvmFeatures {
        EvmFeatures {
            eip2: spec_id.spec_enables(SpecId::HOMESTEAD),
            eip161: spec_id.spec_enables(SpecId::SPURIOUS_DRAGON),
            code_size_check: spec_id.spec_enables(SpecId::SPURIOUS_DRAGON),
            eip2929: spec_id.spec_enables(SpecId::BERLIN),
            eip3541: spec_id.spec_enables(SpecId::LONDON),
            eip6780: spec_id.spec_enables(SpecId::CANCUN),
            eip7708: spec_id.spec_enables(SpecId::AMSTERDAM),
            eip7708_delayed_burn: spec_id.spec_enables(SpecId::AMSTERDAM),
            eip8037: spec_id.spec_enables(SpecId::AMSTERDAM),
        }
    }

    /// The features that `spec_id` switches on.
    pub fn for_spec(spec_id: SpecId) -> (r: EvmFeatures)
        ensures
            r == EvmFeatures::spec_for_spec(spec_id),
    {
        EvmFeatures {
            eip2: spec_id.enables(SpecId::HOMESTEAD),
            eip161: spec_id.enables(SpecId::SPURIOUS_DRAGON),
            code_size_check: spec_id.enables(SpecId::SPURIOUS_DRAGON),
            eip2929: spec_id.enables(SpecId::BERLIN),
            eip3541: spec_id.enables(SpecId::LONDON),
            eip6780: spec_id.enables(SpecId::CANCUN),
            eip7708: spec_id.enables(SpecId::AMSTERDAM),
            eip7708_delayed_burn: spec_id.enables(SpecId::AMSTERDAM),
            eip8037: spec_id.enables(SpecId::AMSTERDAM),
        }
    }
}

/// The active runtime version: a fork and the features in force.
#[derive(Clone, Copy, Debug, PartialEq, Eq, Hash, Structural)]
pub struct Version {
    pub spec_id: SpecId,
    pub features: EvmFeatures,
}

impl Version {
    /// The base version of a fork, with the features that fork defines.
    pub fn base(spec_id: SpecId) -> (r: Version)
        ensures
            r.spec_id == spec_id,
            r.features == EvmFeatures::spec_for_spec(spec_id),
    {
        Version { spec_id, features: EvmFeatures::for_spec(spec_id) }
    }

    /// Same as [`Version::base`].
    pub fn new(spec_id: SpecId) -> (r: Version)
        ensures
            r.spec_id == spec_id,
            r.features == EvmFeatures::spec_for_spec(spec_id),
    {
        Version::base(spec_id)
    }
}

/// The selected execution configuration: the active runtime version.
#[derive(Clone, Copy, Debug, PartialEq, Eq, Structural)]
pub struct ExecutionConfig {
    version: Version,
}

impl ExecutionConfig {
    pub closed spec fn spec_version(&self) -> Version {
        self.version
    }

    /// The configuration of a base fork.
    pub fn for_base_spec(base_spec_id: SpecId) -> (r: ExecutionConfig)
        ensures
            r.spec_version().spec_id == base_spec_id,
            r.spec_version().features == EvmFeatures::spec_for_spec(base_spec_id),
    {
        ExecutionConfig { version: Version::new(base_spec_id) }
    }

    /// The configuration of `spec_id` running with the runtime `version`.
    ///
    /// `version` must belong to `spec_id`.
    pub fn for_spec_and_version(spec_id: SpecId, version: Version) -> (r: ExecutionConfig)
        requires
            version.spec_id == spec_id,
        ensures
            r.spec_version() == version,
    {
        let config = ExecutionConfig::for_base_spec(spec_id);
        config.with_version(version)
    }

    /// Replaces the runtime version, which must keep the same fork.
    pub fn with_version(self, version: Version) -> (r: ExecutionConfig)
        requires
            self.spec_version().spec_id == version.spec_id,
        ensures
            r.spec_version() == version,
    {
        ExecutionConfig { version }
    }

    /// The active version.
    pub fn version(&self) -> (r: &Version)
        ensures
            *r == self.spec_version(),
    {
        &self.version
    }
}

} // verus!
