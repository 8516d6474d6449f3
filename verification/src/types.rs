//! Identifiers, keys and hashes shared by every message of the exchange.

use vstd::prelude::*;

verus! {

/// Amount of an asset, in its smallest unit.
pub type Balance = u128;

/// Identifier of an account: thirty-two bytes, compared and ordered byte by byte.
#[derive(Clone, Copy, Debug, Eq)]
pub struct AccountId {
    pub bytes: [u8; 32],
}

/// Whether `a` comes before `b` in byte-wise dictionary order, for sequences of equal length:
/// at the first position where they differ, `a` holds the smaller byte.
pub open spec fn bytes_before(a: Seq<u8>, b: Seq<u8>) -> bool {
    exists|k: int|
        0 <= k < a.len() && k < b.len() && #[trigger] a[k] < b[k] && a.take(k) == b.take(k)
}

impl AccountId {
    /// The identifier whose bytes are all zero.
    pub fn zero() -> (id: AccountId)
        ensures
            id.bytes@ == Seq::new(32, |i: int| 0u8),
    {
        let id = AccountId { bytes: [0u8; 32] };
        assert(id.bytes@ =~= Seq::new(32, |i: int| 0u8));
        id
    }

    /// The order of identifiers: byte-wise dictionary order.
    pub open spec fn before(self, other: AccountId) -> bool {
        bytes_before(self.bytes@, other.bytes@)
    }

    /// Decides `self.before(*other)`.
    pub fn precedes(&self, other: &AccountId) -> (yes: bool)
        ensures
            yes == self.before(*other),
    {
        let mut i: usize = 0;
        while i < 32
            invariant
                i <= 32,
                forall|j: int| 0 <= j < i ==> self.bytes[j] == other.bytes[j],
            decreases 32 - i,
        {
            if self.bytes[i] != other.bytes[i] {
                let yes = self.bytes[i] < other.bytes[i];
                proof {
                    let a = self.bytes@;
                    let b = other.bytes@;
                    assert(a.take(i as int) =~= b.take(i as int));
                    if !yes {
                        assert forall|k: int|
                            0 <= k < a.len() && k < b.len() && #[trigger] a[k] < b[k] implies a.take(
                            k,
                        ) != b.take(k) by {
                            if k < i {
                                assert(a[k] == b[k]);
                            } else if k > i {
                                assert(a.take(k)[i as int] == a[i as int]);
                                assert(b.take(k)[i as int] == b[i as int]);
                            }
                        }
                    }
                }
                return yes;
            }
            i += 1;
        }
        proof {
            let a = self.bytes@;
            let b = other.bytes@;
            assert forall|k: int| 0 <= k < a.len() && k < b.len() implies !(#[trigger] a[k]
                < b[k]) by {
                assert(self.bytes[k] == other.bytes[k]);
            }
        }
        false
    }
}

impl PartialEq for AccountId {
    fn eq(&self, other: &AccountId) -> (same: bool) {
        let mut i: usize = 0;
        while i < 32
            invariant
                i <= 32,
                forall|j: int| 0 <= j < i ==> self.bytes[j] == other.bytes[j],
            decreases 32 - i,
        {
            if self.bytes[i] != other.bytes[i] {
                return false;
            }
            i += 1;
        }
        assert(self.bytes =~= other.bytes);
        true
    }
}

impl vstd::std_specs::cmp::PartialEqSpecImpl for AccountId {
    open spec fn obeys_eq_spec() -> bool {
        true
    }

    open spec fn eq_spec(&self, other: &AccountId) -> bool {
        self.bytes == other.bytes
    }
}

/// The order of account identifiers is strict and total.
pub proof fn lemma_account_order_total(a: AccountId, b: AccountId)
    ensures
        !a.before(a),
        a.before(b) ==> !b.before(a),
        a == b || a.before(b) || b.before(a),
{
    let x = a.bytes@;
    let y = b.bytes@;
    if a.before(b) && b.before(a) {
        let k = choose|k: int|
            0 <= k < x.len() && k < y.len() && #[trigger] x[k] < y[k] && x.take(k) == y.take(k);
        let m = choose|m: int|
            0 <= m < y.len() && m < x.len() && #[trigger] y[m] < x[m] && y.take(m) == x.take(m);
        if k < m {
            assert(y.take(m)[k] == y[k]);
            assert(x.take(m)[k] == x[k]);
        } else if m < k {
            assert(y.take(k)[m] == y[m]);
            assert(x.take(k)[m] == x[m]);
        }
    }
    if a != b && !a.before(b) && !b.before(a) {
        assert(x.take(0) =~= y.take(0));
        lemma_first_difference(x, y, 0);
        assert(x =~= y);
        assert(a.bytes =~= b.bytes);
    }
}

/// The order of account identifiers is transitive.
pub proof fn lemma_account_order_transitive(a: AccountId, b: AccountId, c: AccountId)
    requires
        a.before(b),
        b.before(c),
    ensures
        a.before(c),
{
    let x = a.bytes@;
    let y = b.bytes@;
    let z = c.bytes@;
    let k = choose|k: int|
        0 <= k < x.len() && k < y.len() && #[trigger] x[k] < y[k] && x.take(k) == y.take(k);
    let m = choose|m: int|
        0 <= m < y.len() && m < z.len() && #[trigger] y[m] < z[m] && y.take(m) == z.take(m);
    let n = if k <= m {
        k
    } else {
        m
    };
    assert forall|j: int| 0 <= j < n implies x[j] == z[j] by {
        assert(x.take(k)[j] == x[j]);
        assert(y.take(k)[j] == y[j]);
        assert(y.take(m)[j] == y[j]);
        assert(z.take(m)[j] == z[j]);
    }
    assert(x.take(n) =~= z.take(n));
    if k < m {
        assert(y.take(m)[k] == y[k]);
        assert(z.take(m)[k] == z[k]);
    } else if m < k {
        assert(x.take(k)[m] == x[m]);
        assert(y.take(k)[m] == y[m]);
    }
    assert(x[n] < z[n]);
}

/// Two sequences of one length that agree before `from`, and of which neither comes before
/// the other, agree everywhere.
proof fn lemma_first_difference(x: Seq<u8>, y: Seq<u8>, from: int)
    requires
        x.len() == y.len(),
        0 <= from <= x.len(),
        x.take(from) == y.take(from),
        !bytes_before(x, y),
        !bytes_before(y, x),
    ensures
        x == y,
    decreases x.len() - from,
{
    if from == x.len() {
        assert(x.take(from) =~= x);
        assert(y.take(from) =~= y);
    } else {
        if x[from] < y[from] {
            assert(bytes_before(x, y));
        } else if y[from] < x[from] {
            assert(bytes_before(y, x));
        } else {
            assert(x.take(from + 1) =~= x.take(from).push(x[from]));
            assert(y.take(from + 1) =~= y.take(from).push(y[from]));
            lemma_first_difference(x, y, from + 1);
        }
    }
}

/// A 256-bit digest, such as the root that commits to the state behind a snapshot.
#[derive(Clone, Copy, Debug, Eq)]
pub struct H256 {
    pub bytes: [u8; 32],
}

impl PartialEq for H256 {
    fn eq(&self, other: &H256) -> (same: bool) {
        let mut i: usize = 0;
        while i < 32
            invariant
                i <= 32,
                forall|j: int| 0 <= j < i ==> self.bytes[j] == other.bytes[j],
            decreases 32 - i,
        {
            if self.bytes[i] != other.bytes[i] {
                return false;
            }
            i += 1;
        }
        assert(self.bytes =~= other.bytes);
        true
    }
}

impl vstd::std_specs::cmp::PartialEqSpecImpl for H256 {
    open spec fn obeys_eq_spec() -> bool {
        true
    }

    open spec fn eq_spec(&self, other: &H256) -> bool {
        self.bytes == other.bytes
    }
}

} // verus!
