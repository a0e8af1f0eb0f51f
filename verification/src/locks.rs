//! The scope lock coordinator: a keyed mutual-exclusion table that
//! serializes mutating administrative operations per scope. Activation
//! state and rule programs are keyed differently, so each operation
//! acquires exactly one lock; acquiring a held lock fails with
//! `ConcurrentModification` instead of waiting, and every engine operation
//! releases what it acquired on every exit path.

use vstd::prelude::*;

use crate::types::{RoutingError, Scope, TransactionType};

verus! {

/// What a lock protects: one scope's activation state for one transaction
/// type, or one scope's rule programs.
#[derive(Clone, Copy, PartialEq, Eq, Structural, Debug)]
pub enum LockKey {
    Activation { scope: Scope, transaction_type: TransactionType },
    Programs { scope: Scope },
}

/// The table of currently held locks.
#[derive(Debug)]
pub struct LockTable {
    pub held: Vec<LockKey>,
}

/// No key is held twice.
pub open spec fn table_wf(t: LockTable) -> bool {
    forall|i: int, j: int| 0 <= i < j < t.held@.len() ==> t.held@[i] != t.held@[j]
}

/// Whether a key is currently held.
pub open spec fn holds_lock(t: LockTable, k: LockKey) -> bool {
    t.held@.contains(k)
}

/// The index of the first occurrence of `k`.
pub open spec fn key_index(s: Seq<LockKey>, k: LockKey) -> int
    decreases s.len(),
{
    if s.len() == 0 {
        0
    } else if s[0] == k {
        0
    } else {
        1 + key_index(s.drop_first(), k)
    }
}

/// When a key is present, `key_index` points at its first occurrence.
pub proof fn lemma_key_index_props(s: Seq<LockKey>, k: LockKey)
    requires
        s.contains(k),
    ensures
        0 <= key_index(s, k) < s.len(),
        s[key_index(s, k)] == k,
        forall|j: int| 0 <= j < key_index(s, k) ==> s[j] != k,
    decreases s.len(),
{
    if s[0] != k {
        let d = s.drop_first();
        assert(forall|i: int| 0 <= i < d.len() ==> d[i] == s[i + 1]);
        assert(d.contains(k)) by {
            let w = choose|w: int| 0 <= w < s.len() && s[w] == k;
            assert(d[w - 1] == k);
        }
        lemma_key_index_props(d, k);
        assert forall|j: int| 0 <= j < key_index(s, k) implies s[j] != k by {
            if j > 0 {
                assert(d[j - 1] == s[j]);
            }
        }
    }
}

/// `key_index` is the index of the first occurrence.
pub proof fn lemma_key_index_first(s: Seq<LockKey>, k: LockKey, i: int)
    requires
        0 <= i < s.len(),
        s[i] == k,
        forall|j: int| 0 <= j < i ==> s[j] != k,
    ensures
        key_index(s, k) == i,
    decreases s.len(),
{
    if s[0] != k {
        assert(forall|j: int| 0 <= j < s.drop_first().len() ==> s.drop_first()[j] == s[j + 1]);
        lemma_key_index_first(s.drop_first(), k, i - 1);
    }
}

/// Appending a key that is not held puts its first occurrence at the end,
/// and removing it there restores the table.
pub proof fn lemma_key_index_pushed(s: Seq<LockKey>, k: LockKey)
    requires
        !s.contains(k),
    ensures
        key_index(s.push(k), k) == s.len(),
        s.push(k).remove(s.len() as int) == s,
{
    assert(s.push(k)[s.len() as int] == k);
    assert(forall|j: int| 0 <= j < s.len() ==> s.push(k)[j] == s[j]);
    lemma_key_index_first(s.push(k), k, s.len() as int);
    assert(s.push(k).remove(s.len() as int) =~= s);
}

impl LockTable {
    /// An empty table: nothing is held.
    pub fn new() -> (r: LockTable)
        ensures
            table_wf(r),
            r.held@.len() == 0,
    {
        LockTable { held: Vec::new() }
    }

    /// Whether a key is currently held.
    pub fn is_held(&self, k: LockKey) -> (b: bool)
        ensures
            b == holds_lock(*self, k),
    {
        let n = self.held.len();
        let mut i: usize = 0;
        while i < n
            invariant
                n == self.held@.len(),
                i <= n,
                forall|j: int| 0 <= j < i ==> self.held@[j] != k,
            decreases n - i,
        {
            if self.held[i] == k {
                return true;
            }
            i += 1;
        }
        false
    }

    /// Tries to take a lock. Fails `ConcurrentModification`, leaving the
    /// table unchanged, exactly when the key is already held: a held key
    /// can never be acquired a second time.
    pub fn acquire(&mut self, k: LockKey) -> (r: Result<(), RoutingError>)
        requires
            table_wf(*old(self)),
        ensures
            table_wf(*final(self)),
            match r {
                Ok(()) => !holds_lock(*old(self), k) && final(self).held@ == old(self).held@.push(
                    k,
                ),
                Err(e) => e == RoutingError::ConcurrentModification && holds_lock(*old(self), k)
                    && *final(self) == *old(self),
            },
    {
        if self.is_held(k) {
            return Err(RoutingError::ConcurrentModification);
        }
        self.held.push(k);
        Ok(())
    }

    /// Releases a key: its first occurrence leaves the table; releasing a
    /// key that is not held changes nothing.
    #[verifier::loop_isolation(false)]
    pub fn release(&mut self, k: LockKey)
        requires
            table_wf(*old(self)),
        ensures
            table_wf(*final(self)),
            holds_lock(*old(self), k) ==> final(self).held@ == old(self).held@.remove(
                key_index(old(self).held@, k),
            ),
            !holds_lock(*old(self), k) ==> final(self).held@ == old(self).held@,
    {
        let ghost held0 = self.held@;
        let n = self.held.len();
        let mut i: usize = 0;
        while i < n
            invariant
                self.held@ == held0,
                held0 == old(self).held@,
                n == self.held@.len(),
                i <= n,
                forall|j: int| 0 <= j < i ==> self.held@[j] != k,
            decreases n - i,
        {
            if self.held[i] == k {
                proof {
                    lemma_key_index_first(self.held@, k, i as int);
                }
                self.held.remove(i);
                proof {
                    assert forall|p: int, q: int|
                        0 <= p < q < self.held@.len() implies self.held@[p] != self.held@[q] by {
                        if p < i {
                            assert(self.held@[p] == held0[p]);
                        } else {
                            assert(self.held@[p] == held0[p + 1]);
                        }
                        if q < i {
                            assert(self.held@[q] == held0[q]);
                        } else {
                            assert(self.held@[q] == held0[q + 1]);
                        }
                    }
                }
                return ;
            }
            i += 1;
        }
    }
}

} // verus!
