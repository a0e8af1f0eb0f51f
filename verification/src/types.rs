//! Core value types shared by every component of the routing engine:
//! scopes, transaction types, connector choices, surcharge specifications
//! and the error taxonomy.

use vstd::prelude::*;

verus! {

/// Platform limit on the length (in characters) of an algorithm's name.
pub const MAX_ALGORITHM_NAME_LEN: usize = 64;

/// The kind of transaction a routing configuration applies to.
#[derive(Clone, Copy, PartialEq, Eq, Structural, Debug)]
pub enum TransactionType {
    Payment,
    Payout,
}

/// The administrative unit a routing configuration belongs to: a merchant,
/// optionally narrowed to one business profile of that merchant.
#[derive(Clone, Copy, PartialEq, Eq, Structural, Debug)]
pub enum Scope {
    Merchant { merchant_id: u64 },
    Profile { merchant_id: u64, profile_id: u64 },
}

impl Scope {
    /// The merchant this scope belongs to.
    pub open spec fn spec_merchant_id(self) -> u64 {
        match self {
            Scope::Merchant { merchant_id } => merchant_id,
            Scope::Profile { merchant_id, .. } => merchant_id,
        }
    }

    /// Whether a caller identified by `self` owns a record held under
    /// `owner`: the scopes are equal, or the caller is merchant-wide and the
    /// record is narrowed to one of that merchant's profiles.
    pub open spec fn spec_owns(self, owner: Scope) -> bool {
        self == owner || (self is Merchant && self.spec_merchant_id() == owner.spec_merchant_id())
    }

    /// Executable form of [`Scope::spec_owns`].
    pub fn owns(&self, owner: &Scope) -> (r: bool)
        ensures
            r == self.spec_owns(*owner),
    {
        match self {
            Scope::Merchant { merchant_id } => *merchant_id == owner.merchant_id(),
            Scope::Profile { .. } => *self == *owner,
        }
    }

    /// Executable form of [`Scope::spec_merchant_id`].
    pub fn merchant_id(&self) -> (r: u64)
        ensures
            r == self.spec_merchant_id(),
    {
        match self {
            Scope::Merchant { merchant_id } => *merchant_id,
            Scope::Profile { merchant_id, .. } => *merchant_id,
        }
    }
}

/// Identifies one routable downstream connector, plus an optional
/// sub-account label that distinguishes several accounts on the same
/// connector. Equality is by the (connector, sub-label) pair.
#[derive(Clone, Copy, PartialEq, Eq, Structural, Debug)]
pub struct ConnectorChoice {
    pub connector: u64,
    pub sub_label: Option<u64>,
}

/// A surcharge decision: no surcharge, a fixed amount in the transaction's
/// minor currency unit, or a rate in basis points of the transaction amount.
#[derive(Clone, Copy, PartialEq, Eq, Structural, Debug)]
pub enum SurchargeSpec {
    NoSurcharge,
    FixedAmount { amount: u64 },
    Rate { basis_points: u32 },
}

/// The output of a conditional-config rule: route through a stored
/// algorithm, or fall back to the scope's static default list.
#[derive(Clone, Copy, PartialEq, Eq, Structural, Debug)]
pub enum RoutingOutput {
    UseAlgorithm { algorithm_id: u64 },
    UseDefaultFallback,
}

/// Everything that can go wrong across the engine's operations.
///
/// Validation and ownership failures are surfaced verbatim to the
/// administrative caller; evaluation-time gaps degrade silently inside
/// `decide_routing`, whose only terminal failure is `NoRoutingDestination`.
#[derive(Clone, Copy, PartialEq, Eq, Structural, Debug)]
pub enum RoutingError {
    /// A malformed body, program or connector list: the caller must fix the input.
    ValidationError,
    /// An algorithm name longer than the platform limit.
    NameTooLong,
    /// An id, scope or program that is absent or owned by another scope.
    NotFound,
    /// An unlink when no algorithm was linked; benign for idempotent callers.
    NothingLinked,
    /// Every routing tier was exhausted: the transaction cannot be routed.
    NoRoutingDestination,
    /// The scope's lock was held by another administrative operation.
    ConcurrentModification,
}

/// Whether a connector list holds no repeated choice.
pub open spec fn distinct_choices(s: Seq<ConnectorChoice>) -> bool {
    forall|i: int, j: int| 0 <= i < j < s.len() ==> s[i] != s[j]
}

/// Executable check of [`distinct_choices`].
pub fn check_distinct_choices(v: &Vec<ConnectorChoice>) -> (r: bool)
    ensures
        r == distinct_choices(v@),
{
    let n = v.len();
    let mut i: usize = 0;
    while i < n
        invariant
            n == v@.len(),
            i <= n,
            forall|p: int, q: int| 0 <= p < q < v@.len() && p < i ==> v@[p] != v@[q],
        decreases n - i,
    {
        let mut j: usize = i + 1;
        while j < n
            invariant
                n == v@.len(),
                i < j <= n,
                i < n,
                forall|q: int| i < q < j ==> v@[i as int] != v@[q],
            decreases n - j,
        {
            if v[i] == v[j] {
                return false;
            }
            j += 1;
        }
        i += 1;
    }
    true
}

/// Copies a connector list element by element.
pub fn copy_choices(v: &Vec<ConnectorChoice>) -> (r: Vec<ConnectorChoice>)
    ensures
        r@ == v@,
{
    let mut out: Vec<ConnectorChoice> = Vec::new();
    let mut i: usize = 0;
    while i < v.len()
        invariant
            i <= v@.len(),
            out@ == v@.subrange(0, i as int),
        decreases v@.len() - i,
    {
        out.push(v[i]);
        i += 1;
        assert(out@ =~= v@.subrange(0, i as int));
    }
    assert(v@.subrange(0, v@.len() as int) =~= v@);
    out
}

} // verus!
