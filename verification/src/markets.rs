//! The assets that the exchange knows and the trading pairs that are open.

use vstd::prelude::*;
use crate::assets::AssetId;
use crate::error::Error;
use crate::ocex::TradingPairConfig;

verus! {

/// An asset that was added, and whether it can be traded. A removed asset stays on record
/// and cannot be traded.
#[derive(Clone, Copy, Debug, PartialEq, Eq, Structural)]
pub struct AssetRecord {
    pub asset: AssetId,
    pub tradable: bool,
}

/// Whether `assets` hold a record of `asset`.
pub open spec fn has_asset(assets: Seq<AssetRecord>, asset: AssetId) -> bool {
    exists|i: int| 0 <= i < assets.len() && (#[trigger] assets[i]).asset == asset
}

/// A position at which `assets` hold a record of `asset`.
pub open spec fn asset_position(assets: Seq<AssetRecord>, asset: AssetId) -> int {
    choose|i: int| 0 <= i < assets.len() && (#[trigger] assets[i]).asset == asset
}

/// Whether no asset has two records.
pub open spec fn distinct_assets(assets: Seq<AssetRecord>) -> bool {
    forall|i: int, j: int|
        0 <= i < j < assets.len() ==> (#[trigger] assets[i]).asset != (#[trigger] assets[j]).asset
}

/// Whether `asset` is on record and can be traded.
pub open spec fn is_tradable(assets: Seq<AssetRecord>, asset: AssetId) -> bool {
    has_asset(assets, asset) && assets[asset_position(assets, asset)].tradable
}

/// The assets after `asset` was added: a new record at the end, or the record of a removed
/// asset made tradable again. It fails with `AlreadyExists` where the asset can be traded.
pub open spec fn after_add_asset(assets: Seq<AssetRecord>, asset: AssetId) -> Result<
    Seq<AssetRecord>,
    Error,
> {
    if is_tradable(assets, asset) {
        Err(Error::AlreadyExists)
    } else if has_asset(assets, asset) {
        Ok(assets.update(asset_position(assets, asset), AssetRecord { asset, tradable: true }))
    } else {
        Ok(assets.push(AssetRecord { asset, tradable: true }))
    }
}

/// The assets after `asset` was removed: its record stays and says that it cannot be traded.
/// It fails with `NotFound` where the asset cannot be traded as it is.
pub open spec fn after_remove_asset(assets: Seq<AssetRecord>, asset: AssetId) -> Result<
    Seq<AssetRecord>,
    Error,
> {
    if !is_tradable(assets, asset) {
        Err(Error::NotFound)
    } else {
        Ok(assets.update(asset_position(assets, asset), AssetRecord { asset, tradable: false }))
    }
}

/// In assets without an asset twice, the record of an asset stands at one position only.
pub proof fn lemma_asset_position_unique(assets: Seq<AssetRecord>, i: int)
    requires
        distinct_assets(assets),
        0 <= i < assets.len(),
    ensures
        has_asset(assets, assets[i].asset),
        asset_position(assets, assets[i].asset) == i,
{
    let k = asset_position(assets, assets[i].asset);
    if k < i {
        assert(assets[k].asset != assets[i].asset);
    } else if i < k {
        assert(assets[i].asset != assets[k].asset);
    }
}

/// The assets that the exchange knows. No asset has two records, and no record ever leaves.
#[derive(Debug)]
pub struct AssetRegistry {
    assets: Vec<AssetRecord>,
}

impl View for AssetRegistry {
    type V = Seq<AssetRecord>;

    closed spec fn view(&self) -> Seq<AssetRecord> {
        self.assets@
    }
}

impl AssetRegistry {
    #[verifier::type_invariant]
    spec fn distinct(self) -> bool {
        distinct_assets(self.assets@)
    }

    /// The registry without assets.
    pub fn new() -> (registry: AssetRegistry)
        ensures
            registry@ == Seq::<AssetRecord>::empty(),
    {
        AssetRegistry { assets: Vec::new() }
    }

    /// The records, in the order the assets were first added.
    pub fn records(&self) -> (records: &[AssetRecord])
        ensures
            records@ == self@,
            distinct_assets(self@),
    {
        proof {
            use_type_invariant(self);
        }
        self.assets.as_slice()
    }

    /// The position of the record of `asset`, if it has one.
    pub fn position(&self, asset: &AssetId) -> (found: Option<usize>)
        ensures
            found is Some <==> has_asset(self@, *asset),
            found matches Some(at) ==> at == asset_position(self@, *asset) && at < self@.len()
                && self@[at as int].asset == *asset,
            distinct_assets(self@),
    {
        proof {
            use_type_invariant(self);
        }
        let mut i: usize = 0;
        while i < self.assets.len()
            invariant
                i <= self.assets.len(),
                distinct_assets(self.assets@),
                forall|k: int| 0 <= k < i ==> (#[trigger] self.assets@[k]).asset != *asset,
            decreases self.assets.len() - i,
        {
            if self.assets[i].asset == *asset {
                proof {
                    lemma_asset_position_unique(self.assets@, i as int);
                }
                return Some(i);
            }
            i += 1;
        }
        None
    }

    /// Whether `asset` is on record and can be traded.
    pub fn tradable(&self, asset: &AssetId) -> (yes: bool)
        ensures
            yes == is_tradable(self@, *asset),
    {
        match self.position(asset) {
            Some(at) => self.assets[at].tradable,
            None => false,
        }
    }

    /// Adds `asset`, or makes it tradable again where it was removed. It fails with
    /// `AlreadyExists`, and changes nothing, where the asset can be traded.
    pub fn add(&mut self, asset: AssetId) -> (done: Result<(), Error>)
        ensures
            match after_add_asset(old(self)@, asset) {
                Ok(next) => done is Ok && final(self)@ == next,
                Err(e) => done == Err::<(), Error>(e) && final(self)@ == old(self)@,
            },
    {
        let found = self.position(&asset);
        if let Some(at) = found {
            if self.assets[at].tradable {
                return Err(Error::AlreadyExists);
            }
        }
        let ghost before = self.assets@;
        let mut assets: Vec<AssetRecord> = Vec::new();
        std::mem::swap(&mut self.assets, &mut assets);
        match found {
            Some(at) => {
                assets.set(at, AssetRecord { asset, tradable: true });
            },
            None => {
                assets.push(AssetRecord { asset, tradable: true });
            },
        }
        proof {
            let next = assets@;
            assert forall|i: int, j: int| 0 <= i < j < next.len() implies (#[trigger] next[i]).asset
                != (#[trigger] next[j]).asset by {
                if j < before.len() {
                    assert(before[i].asset != before[j].asset);
                } else {
                    assert(before[i].asset != asset);
                }
            }
        }
        self.assets = assets;
        Ok(())
    }

    /// Removes `asset` from trading; its record stays. It fails with `NotFound`, and changes
    /// nothing, where the asset cannot be traded as it is.
    pub fn remove(&mut self, asset: &AssetId) -> (done: Result<(), Error>)
        ensures
            match after_remove_asset(old(self)@, *asset) {
                Ok(next) => done is Ok && final(self)@ == next,
                Err(e) => done == Err::<(), Error>(e) && final(self)@ == old(self)@,
            },
    {
        let at = match self.position(asset) {
            Some(at) => at,
            None => {
                return Err(Error::NotFound);
            },
        };
        if !self.assets[at].tradable {
            return Err(Error::NotFound);
        }
        let ghost before = self.assets@;
        let mut assets: Vec<AssetRecord> = Vec::new();
        std::mem::swap(&mut self.assets, &mut assets);
        assets.set(at, AssetRecord { asset: *asset, tradable: false });
        proof {
            let next = assets@;
            assert forall|i: int, j: int| 0 <= i < j < next.len() implies (#[trigger] next[i]).asset
                != (#[trigger] next[j]).asset by {
                assert(before[i].asset != before[j].asset);
            }
        }
        self.assets = assets;
        Ok(())
    }
}

/// Whether a configuration for the pair of `base` and `quote` is among `pairs`.
pub open spec fn has_pair(pairs: Seq<TradingPairConfig>, base: AssetId, quote: AssetId) -> bool {
    exists|i: int| 0 <= i < pairs.len() && (#[trigger] pairs[i]).is_pair(base, quote)
}

/// A position at which `pairs` hold a configuration for the pair of `base` and `quote`.
pub open spec fn pair_position(pairs: Seq<TradingPairConfig>, base: AssetId, quote: AssetId) -> int {
    choose|i: int| 0 <= i < pairs.len() && (#[trigger] pairs[i]).is_pair(base, quote)
}

/// Whether no pair of a base and a quote asset has two configurations.
pub open spec fn distinct_pairs(pairs: Seq<TradingPairConfig>) -> bool {
    forall|i: int, j: int|
        0 <= i < j < pairs.len() ==> !(#[trigger] pairs[i]).is_pair(
            (#[trigger] pairs[j]).base_asset,
            pairs[j].quote_asset,
        )
}

/// The open pairs after `config` was opened: it stands at the end. It fails with
/// `InvalidBounds` where a minimum of `config` is above its maximum, and else with
/// `DuplicatePair` where its pair is open.
pub open spec fn after_open(pairs: Seq<TradingPairConfig>, config: TradingPairConfig) -> Result<
    Seq<TradingPairConfig>,
    Error,
> {
    if !config.bounds_hold() {
        Err(Error::InvalidBounds)
    } else if has_pair(pairs, config.base_asset, config.quote_asset) {
        Err(Error::DuplicatePair)
    } else {
        Ok(pairs.push(config))
    }
}

/// The open pairs after the pair of `base` and `quote` was closed: its configuration has
/// left. It fails with `NotFound` where the pair is not open.
pub open spec fn after_close(pairs: Seq<TradingPairConfig>, base: AssetId, quote: AssetId) -> Result<
    Seq<TradingPairConfig>,
    Error,
> {
    if !has_pair(pairs, base, quote) {
        Err(Error::NotFound)
    } else {
        Ok(pairs.remove(pair_position(pairs, base, quote)))
    }
}

/// Among pairs without a pair twice, the configuration of a pair stands at one position only.
pub proof fn lemma_pair_position_unique(pairs: Seq<TradingPairConfig>, i: int)
    requires
        distinct_pairs(pairs),
        0 <= i < pairs.len(),
    ensures
        has_pair(pairs, pairs[i].base_asset, pairs[i].quote_asset),
        pair_position(pairs, pairs[i].base_asset, pairs[i].quote_asset) == i,
{
    assert(pairs[i].is_pair(pairs[i].base_asset, pairs[i].quote_asset));
    let k = pair_position(pairs, pairs[i].base_asset, pairs[i].quote_asset);
    if k < i {
        assert(!pairs[k].is_pair(pairs[i].base_asset, pairs[i].quote_asset));
    } else if i < k {
        assert(!pairs[i].is_pair(pairs[k].base_asset, pairs[k].quote_asset));
    }
}

/// The trading pairs that are open. No pair has two configurations, and no configuration
/// has a minimum above its maximum.
#[derive(Debug)]
pub struct TradingPairs {
    pairs: Vec<TradingPairConfig>,
}

impl View for TradingPairs {
    type V = Seq<TradingPairConfig>;

    closed spec fn view(&self) -> Seq<TradingPairConfig> {
        self.pairs@
    }
}

/// Whether every configuration keeps each minimum at or below its maximum.
pub open spec fn all_bounds_hold(pairs: Seq<TradingPairConfig>) -> bool {
    forall|i: int| 0 <= i < pairs.len() ==> (#[trigger] pairs[i]).bounds_hold()
}

impl TradingPairs {
    #[verifier::type_invariant]
    spec fn valid(self) -> bool {
        distinct_pairs(self.pairs@) && all_bounds_hold(self.pairs@)
    }

    /// No open pair.
    pub fn new() -> (pairs: TradingPairs)
        ensures
            pairs@ == Seq::<TradingPairConfig>::empty(),
    {
        TradingPairs { pairs: Vec::new() }
    }

    /// The configurations of the open pairs, in the order they were opened.
    pub fn configurations(&self) -> (configurations: &[TradingPairConfig])
        ensures
            configurations@ == self@,
            distinct_pairs(self@),
            all_bounds_hold(self@),
    {
        proof {
            use_type_invariant(self);
        }
        self.pairs.as_slice()
    }

    /// The position of the configuration of the pair of `base` and `quote`, if it is open.
    pub fn position(&self, base: &AssetId, quote: &AssetId) -> (found: Option<usize>)
        ensures
            found is Some <==> has_pair(self@, *base, *quote),
            found matches Some(at) ==> at == pair_position(self@, *base, *quote) && at
                < self@.len() && self@[at as int].is_pair(*base, *quote),
            distinct_pairs(self@),
            all_bounds_hold(self@),
    {
        proof {
            use_type_invariant(self);
        }
        let mut i: usize = 0;
        while i < self.pairs.len()
            invariant
                i <= self.pairs.len(),
                distinct_pairs(self.pairs@),
                all_bounds_hold(self.pairs@),
                forall|k: int| 0 <= k < i ==> !(#[trigger] self.pairs@[k]).is_pair(*base, *quote),
            decreases self.pairs.len() - i,
        {
            if self.pairs[i].trades(base, quote) {
                proof {
                    lemma_pair_position_unique(self.pairs@, i as int);
                }
                return Some(i);
            }
            i += 1;
        }
        None
    }

    /// The configuration of the pair of `base` and `quote`, if it is open.
    pub fn get(&self, base: &AssetId, quote: &AssetId) -> (found: Option<TradingPairConfig>)
        ensures
            found is Some <==> has_pair(self@, *base, *quote),
            found matches Some(config) ==> config == self@[pair_position(self@, *base, *quote)],
    {
        match self.position(base, quote) {
            Some(at) => Some(self.pairs[at]),
            None => None,
        }
    }

    /// Opens the pair of `config`. It fails, and changes nothing, with `InvalidBounds` where
    /// a minimum of `config` is above its maximum, and else with `DuplicatePair` where the
    /// pair is open.
    pub fn open(&mut self, config: TradingPairConfig) -> (done: Result<(), Error>)
        ensures
            match after_open(old(self)@, config) {
                Ok(next) => done is Ok && final(self)@ == next,
                Err(e) => done == Err::<(), Error>(e) && final(self)@ == old(self)@,
            },
    {
        if !config.has_valid_bounds() {
            return Err(Error::InvalidBounds);
        }
        if self.position(&config.base_asset, &config.quote_asset).is_some() {
            return Err(Error::DuplicatePair);
        }
        let ghost before = self.pairs@;
        let mut pairs: Vec<TradingPairConfig> = Vec::new();
        std::mem::swap(&mut self.pairs, &mut pairs);
        pairs.push(config);
        proof {
            let next = pairs@;
            assert forall|i: int, j: int| 0 <= i < j < next.len() implies !(
            #[trigger] next[i]).is_pair((#[trigger] next[j]).base_asset, next[j].quote_asset) by {
                if j < before.len() {
                    assert(!before[i].is_pair(before[j].base_asset, before[j].quote_asset));
                } else {
                    assert(!before[i].is_pair(config.base_asset, config.quote_asset));
                }
            }
            assert forall|i: int| 0 <= i < next.len() implies (#[trigger] next[i]).bounds_hold() by {
                if i < before.len() {
                    assert(before[i].bounds_hold());
                }
            }
        }
        self.pairs = pairs;
        Ok(())
    }

    /// Closes the pair of `base` and `quote`. It fails with `NotFound`, and changes nothing,
    /// where the pair is not open.
    pub fn close(&mut self, base: &AssetId, quote: &AssetId) -> (done: Result<(), Error>)
        ensures
            match after_close(old(self)@, *base, *quote) {
                Ok(next) => done is Ok && final(self)@ == next,
                Err(e) => done == Err::<(), Error>(e) && final(self)@ == old(self)@,
            },
    {
        let at = match self.position(base, quote) {
            Some(at) => at,
            None => {
                return Err(Error::NotFound);
            },
        };
        let ghost before = self.pairs@;
        let mut pairs: Vec<TradingPairConfig> = Vec::new();
        std::mem::swap(&mut self.pairs, &mut pairs);
        let _ = pairs.remove(at);
        proof {
            let next = pairs@;
            assert forall|i: int, j: int| 0 <= i < j < next.len() implies !(
            #[trigger] next[i]).is_pair((#[trigger] next[j]).base_asset, next[j].quote_asset) by {
                let x = if i < at {
                    i
                } else {
                    i + 1
                };
                let y = if j < at {
                    j
                } else {
                    j + 1
                };
                assert(next[i] == before[x]);
                assert(next[j] == before[y]);
                assert(!before[x].is_pair(before[y].base_asset, before[y].quote_asset));
            }
            assert forall|i: int| 0 <= i < next.len() implies (#[trigger] next[i]).bounds_hold() by {
                let x = if i < at {
                    i
                } else {
                    i + 1
                };
                assert(next[i] == before[x]);
                assert(before[x].bounds_hold());
            }
        }
        self.pairs = pairs;
        Ok(())
    }
}

} // verus!
