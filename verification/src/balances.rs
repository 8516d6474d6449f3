//! The balances of one account, asset by asset.

use vstd::prelude::*;
use crate::assets::AssetId;
use crate::error::Error;
use crate::types::Balance;

verus! {

/// What an account holds of one asset: the part it can spend and the part set aside.
#[derive(Clone, Copy, Debug, PartialEq, Eq, Structural)]
pub struct BalanceEntry {
    pub asset: AssetId,
    pub free: Balance,
    pub reserved: Balance,
}

/// Whether the entries stand in strictly ascending order of asset, so that no asset occurs
/// twice.
pub open spec fn ascending(entries: Seq<BalanceEntry>) -> bool {
    forall|i: int, j: int|
        0 <= i < j < entries.len() ==> (#[trigger] entries[i]).asset.before(
            (#[trigger] entries[j]).asset,
        )
}

/// The free and reserved amounts that `entries` records for `asset`, if it records any.
pub open spec fn lookup(entries: Seq<BalanceEntry>, asset: AssetId) -> Option<(Balance, Balance)> {
    if exists|i: int| 0 <= i < entries.len() && (#[trigger] entries[i]).asset == asset {
        let i = choose|i: int| 0 <= i < entries.len() && (#[trigger] entries[i]).asset == asset;
        Some((entries[i].free, entries[i].reserved))
    } else {
        None
    }
}

/// The entries as a map from asset to free and reserved amount.
pub open spec fn as_map(entries: Seq<BalanceEntry>) -> Map<AssetId, (Balance, Balance)> {
    Map::new(
        |asset: AssetId| lookup(entries, asset) is Some,
        |asset: AssetId| lookup(entries, asset)->0,
    )
}

/// The number of entries at the start of `entries` whose asset comes before `asset`.
pub open spec fn rank(entries: Seq<BalanceEntry>, asset: AssetId) -> nat
    decreases entries.len(),
{
    if entries.len() == 0 || !entries[0].asset.before(asset) {
        0
    } else {
        1 + rank(entries.skip(1), asset)
    }
}

/// The entries with `entry` in the place of the entry for its asset, or, where there is none,
/// added at the place that keeps ascending entries ascending.
pub open spec fn placed(entries: Seq<BalanceEntry>, entry: BalanceEntry) -> Seq<BalanceEntry> {
    let at = rank(entries, entry.asset) as int;
    if at < entries.len() && entries[at].asset == entry.asset {
        entries.update(at, entry)
    } else {
        entries.insert(at, entry)
    }
}

/// The rank of an asset is the first position whose asset does not come before it.
pub proof fn lemma_rank_is(entries: Seq<BalanceEntry>, asset: AssetId, at: int)
    requires
        0 <= at <= entries.len(),
        forall|k: int| 0 <= k < at ==> (#[trigger] entries[k]).asset.before(asset),
        at < entries.len() ==> !entries[at].asset.before(asset),
    ensures
        rank(entries, asset) == at,
    decreases at,
{
    if at > 0 {
        let tail = entries.skip(1);
        assert(entries[0].asset.before(asset));
        assert forall|k: int| 0 <= k < at - 1 implies (#[trigger] tail[k]).asset.before(asset) by {
            assert(tail[k] == entries[k + 1]);
        }
        if at - 1 < tail.len() {
            assert(tail[at - 1] == entries[at]);
        }
        lemma_rank_is(tail, asset, at - 1);
    }
}

/// In ascending entries, the entry at a position is the one that `lookup` finds for its asset.
pub proof fn lemma_lookup_at(entries: Seq<BalanceEntry>, i: int)
    requires
        ascending(entries),
        0 <= i < entries.len(),
    ensures
        lookup(entries, entries[i].asset) == Some((entries[i].free, entries[i].reserved)),
{
    let asset = entries[i].asset;
    let k = choose|k: int| 0 <= k < entries.len() && (#[trigger] entries[k]).asset == asset;
    if k < i {
        assert(entries[k].asset.before(entries[i].asset));
    } else if i < k {
        assert(entries[i].asset.before(entries[k].asset));
    }
}

/// Largest number of assets of which one account holds a balance: what a length prefix can
/// say.
pub const MAX_BALANCE_ENTRIES: usize = 0xFFFF_FFFF;

/// The balances of one account: for each asset at most one pair of a free and a reserved
/// amount, kept in ascending order of asset.
#[derive(Debug)]
pub struct Balances {
    entries: Vec<BalanceEntry>,
}

impl View for Balances {
    type V = Map<AssetId, (Balance, Balance)>;

    open spec fn view(&self) -> Map<AssetId, (Balance, Balance)> {
        as_map(self.listing())
    }
}

impl Clone for Balances {
    fn clone(&self) -> (copy: Balances)
        ensures
            copy.listing() == self.listing(),
    {
        proof {
            use_type_invariant(self);
        }
        let mut entries: Vec<BalanceEntry> = Vec::new();
        let mut i: usize = 0;
        while i < self.entries.len()
            invariant
                i <= self.entries.len(),
                entries@ == self.entries@.take(i as int),
            decreases self.entries.len() - i,
        {
            entries.push(self.entries[i]);
            assert(entries@ =~= self.entries@.take(i + 1));
            i += 1;
        }
        assert(entries@ =~= self.entries@);
        Balances { entries }
    }
}

impl Balances {
    #[verifier::type_invariant]
    spec fn ordered(self) -> bool {
        ascending(self.entries@) && self.entries@.len() <= MAX_BALANCE_ENTRIES
    }

    /// The entries in ascending order of asset.
    pub closed spec fn listing(&self) -> Seq<BalanceEntry> {
        self.entries@
    }

    /// No balance of any asset.
    pub fn new() -> (balances: Balances)
        ensures
            balances.listing() == Seq::<BalanceEntry>::empty(),
            balances@ == Map::<AssetId, (Balance, Balance)>::empty(),
    {
        let balances = Balances { entries: Vec::new() };
        assert(balances@ =~= Map::<AssetId, (Balance, Balance)>::empty());
        balances
    }

    /// Whether `entries` can be the listing of balances: in ascending order of asset, and no
    /// more of them than a length prefix can say.
    pub open spec fn admits(entries: Seq<BalanceEntry>) -> bool {
        ascending(entries) && entries.len() <= MAX_BALANCE_ENTRIES
    }

    /// The entries in ascending order of asset.
    pub fn entries(&self) -> (entries: &[BalanceEntry])
        ensures
            entries@ == self.listing(),
            Balances::admits(entries@),
    {
        proof {
            use_type_invariant(self);
        }
        self.entries.as_slice()
    }

    /// The balances that hold exactly `entries`, if these can be a listing.
    pub fn from_entries(entries: Vec<BalanceEntry>) -> (balances: Option<Balances>)
        ensures
            balances is Some <==> Balances::admits(entries@),
            balances matches Some(b) ==> b.listing() == entries@,
    {
        if entries.len() > MAX_BALANCE_ENTRIES {
            return None;
        }
        let mut i: usize = 1;
        while i < entries.len()
            invariant
                1 <= i,
                forall|k: int|
                    0 <= k < i - 1 && k + 1 < entries.len() ==> (#[trigger] entries@[k]).asset.before(
                        entries@[k + 1].asset,
                    ),
            decreases entries.len() - i,
        {
            if !entries[i - 1].asset.precedes(&entries[i].asset) {
                proof {
                    assert(!entries@[i - 1].asset.before(entries@[i as int].asset));
                }
                return None;
            }
            i += 1;
        }
        proof {
            lemma_neighbours_ascending(entries@, entries@.len() as int);
            assert(entries@.take(entries@.len() as int) =~= entries@);
        }
        Some(Balances { entries })
    }

    /// The free and reserved amounts of `asset`, if the account holds an entry for it.
    pub fn get(&self, asset: &AssetId) -> (found: Option<(Balance, Balance)>)
        ensures
            found is Some <==> self@.contains_key(*asset),
            found matches Some(pair) ==> pair == self@[*asset],
    {
        proof {
            use_type_invariant(self);
        }
        let mut i: usize = 0;
        while i < self.entries.len()
            invariant
                i <= self.entries.len(),
                ascending(self.entries@),
                forall|k: int| 0 <= k < i ==> (#[trigger] self.entries@[k]).asset != *asset,
            decreases self.entries.len() - i,
        {
            if self.entries[i].asset == *asset {
                proof {
                    lemma_lookup_at(self.entries@, i as int);
                }
                return Some((self.entries[i].free, self.entries[i].reserved));
            }
            i += 1;
        }
        None
    }

    /// Records `free` and `reserved` as the amounts of `asset`, in place of what was recorded
    /// for it before. The other assets keep their amounts. It fails, and changes nothing,
    /// where the asset is new and the entries are at their largest number.
    pub fn set(&mut self, asset: AssetId, free: Balance, reserved: Balance) -> (done: Result<
        (),
        Error,
    >)
        ensures
            done is Ok <==> old(self)@.contains_key(asset) || old(self).listing().len()
                < MAX_BALANCE_ENTRIES,
            done is Ok ==> final(self)@ == old(self)@.insert(asset, (free, reserved)),
            done is Ok ==> final(self).listing() == placed(
                old(self).listing(),
                BalanceEntry { asset, free, reserved },
            ),
            done matches Err(e) ==> e == Error::CapacityExceeded && final(self).listing() == old(
                self,
            ).listing(),
    {
        proof {
            use_type_invariant(&*self);
        }
        let entry = BalanceEntry { asset, free, reserved };
        let ghost before = self.entries@;
        if self.entries.len() >= MAX_BALANCE_ENTRIES {
            if self.get(&asset).is_none() {
                return Err(Error::CapacityExceeded);
            }
        }
        let mut entries: Vec<BalanceEntry> = Vec::new();
        std::mem::swap(&mut self.entries, &mut entries);
        let mut i: usize = 0;
        while i < entries.len() && entries[i].asset.precedes(&asset)
            invariant
                i <= entries.len(),
                entries@ == before,
                forall|k: int| 0 <= k < i ==> (#[trigger] before[k]).asset.before(asset),
            decreases entries.len() - i,
        {
            i += 1;
        }
        proof {
            lemma_rank_is(before, asset, i as int);
        }
        if i < entries.len() && entries[i].asset == asset {
            entries.set(i, entry);
            proof {
                let after = entries@;
                assert forall|x: int, y: int| 0 <= x < y < after.len() implies (
                #[trigger] after[x]).asset.before((#[trigger] after[y]).asset) by {
                    assert(before[x].asset.before(before[y].asset));
                }
                lemma_replaced(before, after, i as int);
            }
        } else {
            entries.insert(i, entry);
            proof {
                let after = entries@;
                assert forall|k: int| i <= k < before.len() implies asset.before(
                    (#[trigger] before[k]).asset,
                ) by {
                    if k > i {
                        assert(before[i as int].asset.before(before[k].asset));
                    }
                }
                assert forall|x: int, y: int| 0 <= x < y < after.len() implies (
                #[trigger] after[x]).asset.before((#[trigger] after[y]).asset) by {
                    if x < i && y > i {
                        assert(before[x].asset.before(asset));
                        assert(asset.before(before[y - 1].asset));
                    } else if x < i && y < i {
                        assert(before[x].asset.before(before[y].asset));
                    } else if x > i {
                        assert(before[x - 1].asset.before(before[y - 1].asset));
                    }
                }
                lemma_inserted(before, after, i as int);
                if before.len() >= MAX_BALANCE_ENTRIES {
                    assert(lookup(before, asset) is Some);
                    let k = choose|k: int|
                        0 <= k < before.len() && (#[trigger] before[k]).asset == asset;
                    if k < i {
                        assert(before[k].asset.before(asset));
                    } else if k > i {
                        assert(before[i as int].asset.before(before[k].asset));
                    }
                }
            }
        }
        self.entries = entries;
        Ok(())
    }
}

/// Entries of which each comes after its left neighbour are ascending.
proof fn lemma_neighbours_ascending(entries: Seq<BalanceEntry>, n: int)
    requires
        0 <= n <= entries.len(),
        forall|k: int|
            0 <= k && k + 1 < entries.len() ==> (#[trigger] entries[k]).asset.before(
                entries[k + 1].asset,
            ),
    ensures
        ascending(entries.take(n)),
    decreases n,
{
    if n > 1 {
        lemma_neighbours_ascending(entries, n - 1);
        let shorter = entries.take(n - 1);
        let longer = entries.take(n);
        assert forall|i: int, j: int| 0 <= i < j < longer.len() implies (
        #[trigger] longer[i]).asset.before((#[trigger] longer[j]).asset) by {
            if j < n - 1 {
                assert(shorter[i].asset.before(shorter[j].asset));
            } else {
                assert(entries[n - 2].asset.before(entries[n - 1].asset));
                if i < n - 2 {
                    assert(shorter[i].asset.before(shorter[n - 2].asset));
                }
            }
        }
    }
}

/// Replacing the entry at `i` by one for the same asset changes the map at that asset only.
proof fn lemma_replaced(before: Seq<BalanceEntry>, after: Seq<BalanceEntry>, i: int)
    requires
        ascending(before),
        ascending(after),
        0 <= i < before.len(),
        after == before.update(i, after[i]),
        after[i].asset == before[i].asset,
    ensures
        as_map(after) == as_map(before).insert(after[i].asset, (after[i].free, after[i].reserved)),
{
    let asset = after[i].asset;
    assert forall|a: AssetId|
        lookup(after, a) == (if a == asset {
            Some((after[i].free, after[i].reserved))
        } else {
            lookup(before, a)
        }) by {
        if a == asset {
            lemma_lookup_at(after, i);
        } else if exists|k: int| 0 <= k < before.len() && (#[trigger] before[k]).asset == a {
            let k = choose|k: int| 0 <= k < before.len() && (#[trigger] before[k]).asset == a;
            assert(after[k] == before[k]);
            lemma_lookup_at(before, k);
            lemma_lookup_at(after, k);
        } else {
            assert forall|k: int| 0 <= k < after.len() implies (#[trigger] after[k]).asset
                != a by {
                if k != i {
                    assert(before[k].asset != a);
                }
            }
        }
    }
    assert(as_map(after) =~= as_map(before).insert(
        after[i].asset,
        (after[i].free, after[i].reserved),
    ));
}

/// Inserting an entry for an asset that was absent adds that asset to the map.
proof fn lemma_inserted(before: Seq<BalanceEntry>, after: Seq<BalanceEntry>, i: int)
    requires
        ascending(before),
        ascending(after),
        0 <= i <= before.len(),
        after == before.insert(i, after[i]),
    ensures
        as_map(after) == as_map(before).insert(after[i].asset, (after[i].free, after[i].reserved)),
{
    let asset = after[i].asset;
    assert forall|a: AssetId|
        lookup(after, a) == (if a == asset {
            Some((after[i].free, after[i].reserved))
        } else {
            lookup(before, a)
        }) by {
        if a == asset {
            lemma_lookup_at(after, i);
        } else if exists|k: int| 0 <= k < before.len() && (#[trigger] before[k]).asset == a {
            let k = choose|k: int| 0 <= k < before.len() && (#[trigger] before[k]).asset == a;
            let m = if k < i {
                k
            } else {
                k + 1
            };
            assert(after[m] == before[k]);
            lemma_lookup_at(before, k);
            lemma_lookup_at(after, m);
        } else {
            assert forall|k: int| 0 <= k < after.len() implies (#[trigger] after[k]).asset
                != a by {
                if k < i {
                    assert(before[k].asset != a);
                } else if k > i {
                    assert(before[k - 1].asset != a);
                }
            }
        }
    }
    assert(as_map(after) =~= as_map(before).insert(
        after[i].asset,
        (after[i].free, after[i].reserved),
    ));
}

} // verus!
