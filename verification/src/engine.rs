//! The decision engine: one value that owns the algorithm store, the
//! per-scope activation configs, the conditional-config and surcharge rule
//! programs and the scope lock table, and exposes the engine's whole
//! administrative and transaction-time surface.
//!
//! The central invariant lives here: per scope and transaction type, at
//! most one algorithm is `Active`, and it is exactly the one the scope's
//! activation config points at. Every mutating operation takes the scope's
//! lock on entry and releases it on every exit path, so the lock set it
//! leaves behind is the one it found.

use vstd::prelude::*;

use crate::algorithm::{eval_body, evaluate_body, AlgorithmStatus, valid_body};
use crate::expression::AttributeBag;
use crate::locks::{holds_lock, table_wf, LockKey, LockTable};
use crate::search::{
    first_index, lemma_first_index_at, lemma_first_index_congruence, lemma_first_index_none,
    lemma_first_index_push,
};
use crate::store::{record_index, store_wf, AlgorithmStore, RoutingAlgorithm};
use crate::types::{
    check_distinct_choices, copy_choices, distinct_choices, ConnectorChoice, RoutingError,
    RoutingOutput, Scope, SurchargeSpec, TransactionType,
};
use crate::program::{decide, decide_spec, RuleProgram};
use crate::store::{created_record, entry_of, list_spec, record_has_id, DictionaryEntry};

verus! {

/// Per scope and transaction type: which algorithm is linked, and the
/// static fallback connector list used when nothing (usable) is linked.
#[derive(Debug)]
pub struct ConfigEntry {
    pub scope: Scope,
    pub transaction_type: TransactionType,
    pub linked_algorithm_id: Option<u64>,
    pub default_fallback: Vec<ConnectorChoice>,
}

/// A read-only snapshot of one scope's activation state.
#[derive(Debug)]
pub struct ActiveConfig {
    pub linked_algorithm_id: Option<u64>,
    pub default_fallback: Vec<ConnectorChoice>,
}

/// One scope's conditional-config program: its rules pick a routing output.
#[derive(Debug)]
pub struct ConditionalEntry {
    pub scope: Scope,
    pub program: RuleProgram<RoutingOutput>,
}

/// One scope's surcharge program: its rules pick a surcharge.
#[derive(Debug)]
pub struct SurchargeEntry {
    pub scope: Scope,
    pub program: RuleProgram<SurchargeSpec>,
}

/// The whole engine.
#[derive(Debug)]
pub struct Engine {
    pub store: AlgorithmStore,
    pub configs: Vec<ConfigEntry>,
    pub conditional: Vec<ConditionalEntry>,
    pub surcharge: Vec<SurchargeEntry>,
    pub locks: LockTable,
}

/// The predicate an activation-config search matches on.
pub open spec fn config_matches(scope: Scope, transaction_type: TransactionType) -> spec_fn(
    ConfigEntry,
) -> bool {
    |c: ConfigEntry| c.scope == scope && c.transaction_type == transaction_type
}

/// The index of the scope's activation config, or -1.
pub open spec fn config_index(
    configs: Seq<ConfigEntry>,
    scope: Scope,
    transaction_type: TransactionType,
) -> int {
    first_index(configs, config_matches(scope, transaction_type))
}

/// The predicate a conditional-program search matches on.
pub open spec fn conditional_matches(scope: Scope) -> spec_fn(ConditionalEntry) -> bool {
    |c: ConditionalEntry| c.scope == scope
}

/// The index of the scope's conditional program, or -1.
pub open spec fn conditional_index(s: Seq<ConditionalEntry>, scope: Scope) -> int {
    first_index(s, conditional_matches(scope))
}

/// The predicate a surcharge-program search matches on.
pub open spec fn surcharge_matches(scope: Scope) -> spec_fn(SurchargeEntry) -> bool {
    |c: SurchargeEntry| c.scope == scope
}

/// The index of the scope's surcharge program, or -1.
pub open spec fn surcharge_index(s: Seq<SurchargeEntry>, scope: Scope) -> int {
    first_index(s, surcharge_matches(scope))
}

/// The linked algorithm id of one scope and transaction type, if any.
pub open spec fn linked_of(e: Engine, scope: Scope, transaction_type: TransactionType) -> Option<
    u64,
> {
    let ci = config_index(e.configs@, scope, transaction_type);
    if ci >= 0 {
        e.configs@[ci].linked_algorithm_id
    } else {
        None
    }
}

/// The default fallback list of one scope and transaction type; empty
/// until the scope is first configured.
pub open spec fn fallback_of(e: Engine, scope: Scope, transaction_type: TransactionType) -> Seq<
    ConnectorChoice,
> {
    let ci = config_index(e.configs@, scope, transaction_type);
    if ci >= 0 {
        e.configs@[ci].default_fallback@
    } else {
        Seq::empty()
    }
}

/// A config's back-reference is sound: the record it points at exists,
/// belongs to the same scope and transaction type, and is `Active`.
pub open spec fn linked_ok(e: Engine, c: ConfigEntry) -> bool {
    match c.linked_algorithm_id {
        Some(id) => {
            let ri = record_index(e.store.records@, id);
            &&& ri >= 0
            &&& e.store.records@[ri].scope == c.scope
            &&& e.store.records@[ri].transaction_type == c.transaction_type
            &&& e.store.records@[ri].status is Active
        },
        None => true,
    }
}

/// An `Active` record is the one its scope's config points at.
pub open spec fn active_ok(e: Engine, rec: RoutingAlgorithm) -> bool {
    let ci = config_index(e.configs@, rec.scope, rec.transaction_type);
    ci >= 0 && e.configs@[ci].linked_algorithm_id == Some(rec.id)
}

/// Well-formedness of the engine: the store and the lock table are well
/// formed, each keyed table holds its key at most once, fallback lists hold
/// no repeated connector, and linking is consistent in both directions —
/// together that makes an `Active` record unique per scope and transaction
/// type.
pub open spec fn engine_wf(e: Engine) -> bool {
    &&& store_wf(e.store)
    &&& table_wf(e.locks)
    &&& forall|i: int, j: int|
        0 <= i < j < e.configs@.len() ==> !(e.configs@[i].scope == e.configs@[j].scope
            && e.configs@[i].transaction_type == e.configs@[j].transaction_type)
    &&& forall|i: int|
        0 <= i < e.configs@.len() ==> distinct_choices(
            (#[trigger] e.configs@[i]).default_fallback@,
        )
    &&& forall|i: int, j: int|
        0 <= i < j < e.conditional@.len() ==> e.conditional@[i].scope != e.conditional@[j].scope
    &&& forall|i: int, j: int|
        0 <= i < j < e.surcharge@.len() ==> e.surcharge@[i].scope != e.surcharge@[j].scope
    &&& forall|ci: int| 0 <= ci < e.configs@.len() ==> linked_ok(e, #[trigger] e.configs@[ci])
    &&& forall|ri: int|
        0 <= ri < e.store.records@.len() && (#[trigger] e.store.records@[ri]).status is Active
            ==> active_ok(e, e.store.records@[ri])
}

/// Two engines hold the same configuration (the lock table aside).
pub open spec fn same_state(a: Engine, b: Engine) -> bool {
    &&& a.store.records@ == b.store.records@
    &&& a.store.dictionary@ == b.store.dictionary@
    &&& a.store.next_id == b.store.next_id
    &&& a.configs@ == b.configs@
    &&& a.conditional@ == b.conditional@
    &&& a.surcharge@ == b.surcharge@
}

/// Two engines hold the same locks.
pub open spec fn same_locks(a: Engine, b: Engine) -> bool {
    forall|k: LockKey| holds_lock(a.locks, k) == holds_lock(b.locks, k)
}

/// The central invariant, stated on its own: in a well-formed engine, two
/// `Active` records of the same scope and transaction type are one and the
/// same record. Mutating operations require and re-establish
/// well-formedness, so no caller ever observes two live algorithms for one
/// scope.
pub proof fn lemma_single_active(e: Engine, i: int, j: int)
    requires
        engine_wf(e),
        0 <= i < e.store.records@.len(),
        0 <= j < e.store.records@.len(),
        e.store.records@[i].status is Active,
        e.store.records@[j].status is Active,
        e.store.records@[i].scope == e.store.records@[j].scope,
        e.store.records@[i].transaction_type == e.store.records@[j].transaction_type,
    ensures
        i == j,
{
    assert(active_ok(e, e.store.records@[i]));
    assert(active_ok(e, e.store.records@[j]));
    assert(e.store.records@[i].id == e.store.records@[j].id);
    if i < j {
        assert(e.store.records@[i].id < e.store.records@[j].id);
    }
    if j < i {
        assert(e.store.records@[j].id < e.store.records@[i].id);
    }
}

/// Finds the activation config of one scope and transaction type.
fn find_config(
    configs: &Vec<ConfigEntry>,
    scope: Scope,
    transaction_type: TransactionType,
) -> (r: Option<usize>)
    ensures
        match r {
            Some(i) => i as int == config_index(configs@, scope, transaction_type) && i
                < configs@.len() && configs@[i as int].scope == scope && configs@[
                i as int
            ].transaction_type == transaction_type,
            None => config_index(configs@, scope, transaction_type) == -1,
        },
{
    let n = configs.len();
    let mut i: usize = 0;
    while i < n
        invariant
            n == configs@.len(),
            i <= n,
            forall|j: int|
                0 <= j < i ==> !((#[trigger] configs@[j]).scope == scope
                    && configs@[j].transaction_type == transaction_type),
        decreases n - i,
    {
        if configs[i].scope == scope && configs[i].transaction_type == transaction_type {
            proof {
                lemma_first_index_at(configs@, config_matches(scope, transaction_type), i as int);
            }
            return Some(i);
        }
        i += 1;
    }
    proof {
        lemma_first_index_none(configs@, config_matches(scope, transaction_type));
    }
    None
}

/// Finds the conditional program of one scope.
fn find_conditional(s: &Vec<ConditionalEntry>, scope: Scope) -> (r: Option<usize>)
    ensures
        match r {
            Some(i) => i as int == conditional_index(s@, scope) && i < s@.len() && s@[
                i as int
            ].scope == scope,
            None => conditional_index(s@, scope) == -1,
        },
{
    let n = s.len();
    let mut i: usize = 0;
    while i < n
        invariant
            n == s@.len(),
            i <= n,
            forall|j: int| 0 <= j < i ==> (#[trigger] s@[j]).scope != scope,
        decreases n - i,
    {
        if s[i].scope == scope {
            proof {
                lemma_first_index_at(s@, conditional_matches(scope), i as int);
            }
            return Some(i);
        }
        i += 1;
    }
    proof {
        lemma_first_index_none(s@, conditional_matches(scope));
    }
    None
}

/// Finds the surcharge program of one scope.
fn find_surcharge(s: &Vec<SurchargeEntry>, scope: Scope) -> (r: Option<usize>)
    ensures
        match r {
            Some(i) => i as int == surcharge_index(s@, scope) && i < s@.len() && s@[
                i as int
            ].scope == scope,
            None => surcharge_index(s@, scope) == -1,
        },
{
    let n = s.len();
    let mut i: usize = 0;
    while i < n
        invariant
            n == s@.len(),
            i <= n,
            forall|j: int| 0 <= j < i ==> (#[trigger] s@[j]).scope != scope,
        decreases n - i,
    {
        if s[i].scope == scope {
            proof {
                lemma_first_index_at(s@, surcharge_matches(scope), i as int);
            }
            return Some(i);
        }
        i += 1;
    }
    proof {
        lemma_first_index_none(s@, surcharge_matches(scope));
    }
    None
}

/// Points one activation config at a new linked id, leaving its other
/// fields alone.
fn set_config_linked(configs: &mut Vec<ConfigEntry>, i: usize, linked: Option<u64>)
    requires
        i < old(configs)@.len(),
    ensures
        final(configs)@ == old(configs)@.update(
            i as int,
            ConfigEntry { linked_algorithm_id: linked, ..old(configs)@[i as int] },
        ),
{
    configs[i].linked_algorithm_id = linked;
}

/// Replaces one activation config's fallback list, leaving its other
/// fields alone.
fn set_config_fallback(configs: &mut Vec<ConfigEntry>, i: usize, fallback: Vec<ConnectorChoice>)
    requires
        i < old(configs)@.len(),
    ensures
        final(configs)@ == old(configs)@.update(
            i as int,
            ConfigEntry { default_fallback: fallback, ..old(configs)@[i as int] },
        ),
{
    configs[i].default_fallback = fallback;
}

/// Flips one record's lifecycle status, leaving everything else alone.
fn set_record_status(records: &mut Vec<RoutingAlgorithm>, i: usize, status: AlgorithmStatus)
    requires
        i < old(records)@.len(),
    ensures
        final(records)@ == old(records)@.update(
            i as int,
            RoutingAlgorithm { status, ..old(records)@[i as int] },
        ),
{
    records[i].status = status;
}

impl Engine {
    /// A fresh engine: nothing stored, nothing configured, nothing locked.
    pub fn new() -> (r: Engine)
        ensures
            engine_wf(r),
            r.store.records@.len() == 0,
            r.store.dictionary@.len() == 0,
            r.configs@.len() == 0,
            r.conditional@.len() == 0,
            r.surcharge@.len() == 0,
            r.locks.held@.len() == 0,
    {
        Engine {
            store: AlgorithmStore::new(),
            configs: Vec::new(),
            conditional: Vec::new(),
            surcharge: Vec::new(),
            locks: LockTable::new(),
        }
    }

    /// Takes a scope lock on behalf of an administrative session, so that
    /// every mutating operation on the same key fails with
    /// `ConcurrentModification` until the session releases it.
    pub fn acquire_scope_lock(&mut self, key: LockKey) -> (r: Result<(), RoutingError>)
        requires
            engine_wf(*old(self)),
        ensures
            engine_wf(*final(self)),
            same_state(*final(self), *old(self)),
            match r {
                Ok(()) => !holds_lock(old(self).locks, key) && holds_lock(final(self).locks, key)
                    && forall|k2: LockKey|
                    k2 != key ==> holds_lock(final(self).locks, k2) == holds_lock(
                        old(self).locks,
                        k2,
                    ),
                Err(e) => e == RoutingError::ConcurrentModification && holds_lock(
                    old(self).locks,
                    key,
                ) && same_locks(*final(self), *old(self)),
            },
    {
        let r = self.locks.acquire(key);
        proof {
            if r is Ok {
                let held0 = old(self).locks.held@;
                let held1 = self.locks.held@;
                assert(holds_lock(self.locks, key)) by {
                    assert(held1.last() == key);
                }
                assert forall|k2: LockKey|
                    k2 != key implies holds_lock(self.locks, k2) == holds_lock(
                    old(self).locks,
                    k2,
                ) by {
                    if holds_lock(old(self).locks, k2) {
                        let j = choose|j: int| 0 <= j < held0.len() && held0[j] == k2;
                        assert(held1[j] == k2);
                    }
                    if holds_lock(self.locks, k2) {
                        let j = choose|j: int| 0 <= j < held1.len() && held1[j] == k2;
                        assert(j < held0.len());
                        assert(held0[j] == k2);
                    }
                }
            }
        }
        r
    }

    /// Releases a scope lock taken by `acquire_scope_lock`. Releasing a
    /// lock nobody holds changes nothing.
    pub fn release_scope_lock(&mut self, key: LockKey)
        requires
            engine_wf(*old(self)),
        ensures
            engine_wf(*final(self)),
            same_state(*final(self), *old(self)),
            !holds_lock(final(self).locks, key),
            forall|k2: LockKey|
                k2 != key ==> holds_lock(final(self).locks, k2) == holds_lock(old(self).locks, k2),
    {
        let ghost held0 = self.locks.held@;
        self.locks.release(key);
        proof {
            lemma_release_preserves_others(held0, self.locks.held@, key);
        }
    }
}

/// After a well-formed table releases `key`, `key` is gone and every other
/// key's presence is untouched.
proof fn lemma_release_preserves_others(held0: Seq<LockKey>, held1: Seq<LockKey>, key: LockKey)
    requires
        forall|i: int, j: int| 0 <= i < j < held0.len() ==> held0[i] != held0[j],
        held0.contains(key) ==> held1 == held0.remove(crate::locks::key_index(held0, key)),
        !held0.contains(key) ==> held1 == held0,
    ensures
        !held1.contains(key),
        forall|k2: LockKey| k2 != key ==> held1.contains(k2) == held0.contains(k2),
{
    if held0.contains(key) {
        crate::locks::lemma_key_index_props(held0, key);
        let fi = crate::locks::key_index(held0, key);
        assert(forall|j: int| 0 <= j < fi ==> held1[j] == held0[j]);
        assert(forall|j: int| fi <= j < held1.len() ==> held1[j] == held0[j + 1]);
        if held1.contains(key) {
            let j = choose|j: int| 0 <= j < held1.len() && held1[j] == key;
            if j < fi {
                assert(held0[j] == key);
                assert(held0[j] != held0[fi]);
            } else {
                assert(held0[j + 1] == key);
                assert(held0[fi] != held0[j + 1]);
            }
            assert(false);
        }
        assert forall|k2: LockKey| k2 != key implies held1.contains(k2) == held0.contains(k2) by {
            if held1.contains(k2) {
                let j = choose|j: int| 0 <= j < held1.len() && held1[j] == k2;
                if j < fi {
                    assert(held0[j] == k2);
                } else {
                    assert(held0[j + 1] == k2);
                }
                assert(held0.contains(k2));
            }
            if held0.contains(k2) {
                let j = choose|j: int| 0 <= j < held0.len() && held0[j] == k2;
                if j < fi {
                    assert(held1[j] == k2);
                } else {
                    assert(j != fi);
                    assert(held1[j - 1] == k2);
                }
                assert(held1.contains(k2));
            }
        }
    }
}


/// What `unlink_algorithm` does, as a relation between the engine before
/// and after the call. A held scope lock blocks the call; unlinking with
/// nothing linked is the benign `NothingLinked`; otherwise the pointer is
/// cleared and the previously linked record is demoted to `Inactive`.
/// Every path leaves the lock set as it found it.
pub open spec fn unlink_rel(
    pre: Engine,
    post: Engine,
    scope: Scope,
    transaction_type: TransactionType,
    r: Result<(), RoutingError>,
) -> bool {
    let key = LockKey::Activation { scope, transaction_type };
    &&& same_locks(post, pre)
    &&& if holds_lock(pre.locks, key) {
        r == Err::<(), RoutingError>(RoutingError::ConcurrentModification) && same_state(post, pre)
    } else {
        match linked_of(pre, scope, transaction_type) {
            None => r == Err::<(), RoutingError>(RoutingError::NothingLinked) && same_state(post, pre),
            Some(prev_id) => {
                let ci = config_index(pre.configs@, scope, transaction_type);
                let ri = record_index(pre.store.records@, prev_id);
                &&& r == Ok::<(), RoutingError>(())
                &&& post.configs@ == pre.configs@.update(
                    ci,
                    ConfigEntry { linked_algorithm_id: None, ..pre.configs@[ci] },
                )
                &&& (ri >= 0 ==> post.store.records@ == pre.store.records@.update(
                    ri,
                    RoutingAlgorithm {
                        status: AlgorithmStatus::Inactive,
                        ..pre.store.records@[ri]
                    },
                ))
                &&& (ri < 0 ==> post.store.records@ == pre.store.records@)
                &&& post.store.dictionary@ == pre.store.dictionary@
                &&& post.store.next_id == pre.store.next_id
                &&& post.conditional@ == pre.conditional@
                &&& post.surcharge@ == pre.surcharge@
                &&& linked_of(post, scope, transaction_type) is None
                &&& fallback_of(post, scope, transaction_type) == fallback_of(
                    pre,
                    scope,
                    transaction_type,
                )
            },
        }
    }
}

impl Engine {
    /// A read-only snapshot of one scope's activation state. Always
    /// returns a value: a scope never configured has nothing linked and an
    /// empty fallback list.
    pub fn retrieve_active_config(
        &self,
        scope: Scope,
        transaction_type: TransactionType,
    ) -> (r: ActiveConfig)
        ensures
            r.linked_algorithm_id == linked_of(*self, scope, transaction_type),
            r.default_fallback@ == fallback_of(*self, scope, transaction_type),
    {
        match find_config(&self.configs, scope, transaction_type) {
            Some(ci) => ActiveConfig {
                linked_algorithm_id: self.configs[ci].linked_algorithm_id,
                default_fallback: copy_choices(&self.configs[ci].default_fallback),
            },
            None => ActiveConfig { linked_algorithm_id: None, default_fallback: Vec::new() },
        }
    }

    /// Replaces one scope's default fallback list. The list must be
    /// non-empty and hold no repeated connector, else `ValidationError`
    /// leaves everything as it was; linking state is independent of this
    /// call and never moves.
    pub fn update_default_fallback(
        &mut self,
        scope: Scope,
        transaction_type: TransactionType,
        connectors: Vec<ConnectorChoice>,
    ) -> (r: Result<(), RoutingError>)
        requires
            engine_wf(*old(self)),
        ensures
            engine_wf(*final(self)),
            same_locks(*final(self), *old(self)),
            ({
                let key = LockKey::Activation { scope, transaction_type };
                let pre = *old(self);
                let post = *final(self);
                if holds_lock(pre.locks, key) {
                    r == Err::<(), RoutingError>(RoutingError::ConcurrentModification)
                        && same_state(post, pre)
                } else if connectors@.len() == 0 || !distinct_choices(connectors@) {
                    r == Err::<(), RoutingError>(RoutingError::ValidationError)
                        && same_state(post, pre)
                } else {
                    let ci = config_index(pre.configs@, scope, transaction_type);
                    &&& r == Ok::<(), RoutingError>(())
                    &&& (ci >= 0 ==> post.configs@ == pre.configs@.update(
                        ci,
                        ConfigEntry { default_fallback: connectors, ..pre.configs@[ci] },
                    ))
                    &&& (ci < 0 ==> post.configs@ == pre.configs@.push(
                        ConfigEntry {
                            scope,
                            transaction_type,
                            linked_algorithm_id: None,
                            default_fallback: connectors,
                        },
                    ))
                    &&& fallback_of(post, scope, transaction_type) == connectors@
                    &&& linked_of(post, scope, transaction_type) == linked_of(
                        pre,
                        scope,
                        transaction_type,
                    )
                    &&& post.store.records@ == pre.store.records@
                    &&& post.store.dictionary@ == pre.store.dictionary@
                    &&& post.store.next_id == pre.store.next_id
                    &&& post.conditional@ == pre.conditional@
                    &&& post.surcharge@ == pre.surcharge@
                }
            }),
    {
        let key = LockKey::Activation { scope, transaction_type };
        let ghost held0 = self.locks.held@;
        match self.locks.acquire(key) {
            Err(e) => {
                return Err(e);
            },
            Ok(()) => {},
        }
        if connectors.len() == 0 || !check_distinct_choices(&connectors) {
            self.locks.release(key);
            proof {
                crate::locks::lemma_key_index_pushed(held0, key);
            }
            return Err(RoutingError::ValidationError);
        }
        let ghost pre = *old(self);
        match find_config(&self.configs, scope, transaction_type) {
            Some(ci) => {
                set_config_fallback(&mut self.configs, ci, connectors);
                proof {
                    lemma_config_keys_kept(pre.configs@, self.configs@);
                    lemma_first_index_congruence(
                        pre.configs@,
                        self.configs@,
                        config_matches(scope, transaction_type),
                    );
                }
            },
            None => {
                self.configs.push(
                    ConfigEntry {
                        scope,
                        transaction_type,
                        linked_algorithm_id: None,
                        default_fallback: connectors,
                    },
                );
                proof {
                    lemma_first_index_push(
                        pre.configs@,
                        config_matches(scope, transaction_type),
                        self.configs@.last(),
                    );
                }
            },
        }
        proof {
            lemma_wf_after_config_change(pre, *self, scope, transaction_type);
        }
        self.locks.release(key);
        proof {
            crate::locks::lemma_key_index_pushed(held0, key);
        }
        Ok(())
    }

    /// Clears one scope's linked algorithm and demotes the previously
    /// linked record to `Inactive`. Unlinking with nothing linked is the
    /// benign `NothingLinked` and changes nothing, so a second unlink in a
    /// row never moves the configuration.
    pub fn unlink_algorithm(
        &mut self,
        scope: Scope,
        transaction_type: TransactionType,
    ) -> (r: Result<(), RoutingError>)
        requires
            engine_wf(*old(self)),
        ensures
            engine_wf(*final(self)),
            unlink_rel(*old(self), *final(self), scope, transaction_type, r),
    {
        let key = LockKey::Activation { scope, transaction_type };
        let ghost held0 = self.locks.held@;
        match self.locks.acquire(key) {
            Err(e) => {
                return Err(e);
            },
            Ok(()) => {},
        }
        let ghost pre = *old(self);
        let ci_found = find_config(&self.configs, scope, transaction_type);
        let previous: Option<u64> = match ci_found {
            Some(ci) => self.configs[ci].linked_algorithm_id,
            None => None,
        };
        match (ci_found, previous) {
            (Some(ci), Some(prev_id)) => {
                set_config_linked(&mut self.configs, ci, None);
                proof {
                    lemma_config_keys_kept(pre.configs@, self.configs@);
                    lemma_first_index_congruence(
                        pre.configs@,
                        self.configs@,
                        config_matches(scope, transaction_type),
                    );
                }
                match self.store.find_index(prev_id) {
                    Some(ri) => {
                        set_record_status(
                            &mut self.store.records,
                            ri,
                            AlgorithmStatus::Inactive,
                        );
                    },
                    None => {},
                }
                proof {
                    lemma_wf_after_unlink(pre, *self, scope, transaction_type, prev_id);
                }
                self.locks.release(key);
                proof {
                    crate::locks::lemma_key_index_pushed(held0, key);
                }
                Ok(())
            },
            _ => {
                self.locks.release(key);
                proof {
                    crate::locks::lemma_key_index_pushed(held0, key);
                }
                Err(RoutingError::NothingLinked)
            },
        }
    }
}

/// Pointwise: two config tables of equal length whose entries carry the
/// same scope and transaction type.
pub open spec fn config_keys_kept(c1: Seq<ConfigEntry>, c2: Seq<ConfigEntry>) -> bool {
    c1.len() == c2.len() && forall|i: int|
        0 <= i < c1.len() ==> (#[trigger] c2[i]).scope == c1[i].scope
            && c2[i].transaction_type == c1[i].transaction_type
}

/// Keeping every entry's keys keeps every search result.
proof fn lemma_config_keys_kept(c1: Seq<ConfigEntry>, c2: Seq<ConfigEntry>)
    requires
        config_keys_kept(c1, c2),
    ensures
        forall|s: Scope, t: TransactionType|
            #[trigger] config_index(c2, s, t) == config_index(c1, s, t),
{
    assert forall|s: Scope, t: TransactionType|
        #[trigger] config_index(c2, s, t) == config_index(c1, s, t) by {
        lemma_first_index_congruence(c1, c2, config_matches(s, t));
    }
}

/// Re-establishes the engine invariant after a change that touches only
/// the fallback list of one config, or adds a fresh config with nothing
/// linked: linking state is untouched either way.
proof fn lemma_wf_after_config_change(
    pre: Engine,
    post: Engine,
    scope: Scope,
    transaction_type: TransactionType,
)
    requires
        engine_wf(pre),
        post.store == pre.store,
        post.conditional@ == pre.conditional@,
        post.surcharge@ == pre.surcharge@,
        table_wf(post.locks),
        ({
            let ci = config_index(pre.configs@, scope, transaction_type);
            (ci >= 0 && exists|fb: Vec<ConnectorChoice>|
                distinct_choices(fb@) && post.configs@ == pre.configs@.update(
                    ci,
                    ConfigEntry { default_fallback: fb, ..pre.configs@[ci] },
                )) || (ci < 0 && exists|fb: Vec<ConnectorChoice>|
                distinct_choices(fb@) && post.configs@ == pre.configs@.push(
                    ConfigEntry {
                        scope,
                        transaction_type,
                        linked_algorithm_id: None,
                        default_fallback: fb,
                    },
                ))
        }),
    ensures
        engine_wf(post),
{
    let ci = config_index(pre.configs@, scope, transaction_type);
    crate::search::lemma_first_index_props(pre.configs@, config_matches(scope, transaction_type));
    if ci >= 0 {
        lemma_config_keys_kept(pre.configs@, post.configs@);
        assert forall|k: int|
            0 <= k < post.configs@.len() implies linked_ok(post, #[trigger] post.configs@[k]) by {
            assert(linked_ok(pre, pre.configs@[k]));
            assert(post.configs@[k].linked_algorithm_id == pre.configs@[k].linked_algorithm_id);
        }
        assert forall|ri: int|
            0 <= ri < post.store.records@.len() && (#[trigger] post.store.records@[ri]).status
                is Active implies active_ok(post, post.store.records@[ri]) by {
            let rec = pre.store.records@[ri];
            assert(active_ok(pre, rec));
            let cj = config_index(pre.configs@, rec.scope, rec.transaction_type);
            crate::search::lemma_first_index_props(
                pre.configs@,
                config_matches(rec.scope, rec.transaction_type),
            );
            assert(config_index(post.configs@, rec.scope, rec.transaction_type) == cj);
            assert(post.configs@[cj].linked_algorithm_id == pre.configs@[cj].linked_algorithm_id);
        }
    } else {
        assert forall|k: int|
            0 <= k < post.configs@.len() implies linked_ok(post, #[trigger] post.configs@[k]) by {
            if k < pre.configs@.len() {
                assert(linked_ok(pre, pre.configs@[k]));
                assert(post.configs@[k] == pre.configs@[k]);
            }
        }
        assert forall|ri: int|
            0 <= ri < post.store.records@.len() && (#[trigger] post.store.records@[ri]).status
                is Active implies active_ok(post, post.store.records@[ri]) by {
            let rec = pre.store.records@[ri];
            assert(active_ok(pre, rec));
            let cj = config_index(pre.configs@, rec.scope, rec.transaction_type);
            crate::search::lemma_first_index_props(
                pre.configs@,
                config_matches(rec.scope, rec.transaction_type),
            );
            lemma_first_index_push(
                pre.configs@,
                config_matches(rec.scope, rec.transaction_type),
                post.configs@.last(),
            );
            assert(config_index(post.configs@, rec.scope, rec.transaction_type) == cj);
            assert(post.configs@[cj] == pre.configs@[cj]);
        }
    }
}

/// Re-establishes the engine invariant after an unlink: the config at the
/// scope's index loses its pointer, and the record it pointed at (which
/// well-formedness locates) is demoted.
proof fn lemma_wf_after_unlink(
    pre: Engine,
    post: Engine,
    scope: Scope,
    transaction_type: TransactionType,
    prev_id: u64,
)
    requires
        engine_wf(pre),
        table_wf(post.locks),
        post.store.dictionary@ == pre.store.dictionary@,
        post.store.next_id == pre.store.next_id,
        post.conditional@ == pre.conditional@,
        post.surcharge@ == pre.surcharge@,
        config_index(pre.configs@, scope, transaction_type) >= 0,
        pre.configs@[config_index(pre.configs@, scope, transaction_type)].linked_algorithm_id
            == Some(prev_id),
        post.configs@ == pre.configs@.update(
            config_index(pre.configs@, scope, transaction_type),
            ConfigEntry {
                linked_algorithm_id: None,
                ..pre.configs@[config_index(pre.configs@, scope, transaction_type)]
            },
        ),
        ({
            let ri = record_index(pre.store.records@, prev_id);
            ri >= 0 && post.store.records@ == pre.store.records@.update(
                ri,
                RoutingAlgorithm { status: AlgorithmStatus::Inactive, ..pre.store.records@[ri] },
            )
        }),
    ensures
        engine_wf(post),
        linked_of(post, scope, transaction_type) is None,
        fallback_of(post, scope, transaction_type) == fallback_of(pre, scope, transaction_type),
{
    let ci = config_index(pre.configs@, scope, transaction_type);
    let ri = record_index(pre.store.records@, prev_id);
    crate::search::lemma_first_index_props(pre.configs@, config_matches(scope, transaction_type));
    crate::search::lemma_first_index_props(pre.store.records@, crate::store::record_has_id(prev_id));
    lemma_config_keys_kept(pre.configs@, post.configs@);
    assert(store_wf(post.store)) by {
        assert(forall|i: int|
            0 <= i < post.store.records@.len() ==> (#[trigger] post.store.records@[i]).id
                == pre.store.records@[i].id && post.store.records@[i].created_at
                == pre.store.records@[i].created_at && post.store.records@[i].body
                == pre.store.records@[i].body && post.store.records@[i].scope
                == pre.store.records@[i].scope && post.store.records@[i].transaction_type
                == pre.store.records@[i].transaction_type && post.store.records@[i].name
                == pre.store.records@[i].name && post.store.records@[i].description
                == pre.store.records@[i].description);
        assert forall|i: int|
            0 <= i < post.store.records@.len() implies (#[trigger] post.store.dictionary@[i])
                == crate::store::entry_of(post.store.records@[i]) by {
            assert(pre.store.dictionary@[i] == crate::store::entry_of(pre.store.records@[i]));
        }
    }
    assert forall|id: u64|
        #[trigger] record_index(post.store.records@, id) == record_index(
            pre.store.records@,
            id,
        ) by {
        lemma_first_index_congruence(
            pre.store.records@,
            post.store.records@,
            crate::store::record_has_id(id),
        );
    }
    assert forall|k: int|
        0 <= k < post.configs@.len() implies linked_ok(post, #[trigger] post.configs@[k]) by {
        assert(linked_ok(pre, pre.configs@[k]));
        if k != ci {
            match post.configs@[k].linked_algorithm_id {
                Some(id) => {
                    let rk = record_index(pre.store.records@, id);
                    crate::search::lemma_first_index_props(
                        pre.store.records@,
                        crate::store::record_has_id(id),
                    );
                    assert(pre.store.records@[rk].scope == pre.configs@[k].scope);
                    if rk == ri {
                        // the demoted record belongs to (scope, transaction_type),
                        // which no other config claims
                        assert(pre.store.records@[ri].scope == scope);
                        assert(pre.store.records@[ri].transaction_type == transaction_type);
                        assert(pre.configs@[k].scope == scope && pre.configs@[
                            k
                        ].transaction_type == transaction_type);
                        assert(false);
                    }
                    assert(post.store.records@[rk] == pre.store.records@[rk]);
                },
                None => {},
            }
        }
    }
    assert forall|rj: int|
        0 <= rj < post.store.records@.len() && (#[trigger] post.store.records@[rj]).status
            is Active implies active_ok(post, post.store.records@[rj]) by {
        assert(rj != ri);
        let rec = pre.store.records@[rj];
        assert(rec.status is Active);
        assert(active_ok(pre, rec));
        let cj = config_index(pre.configs@, rec.scope, rec.transaction_type);
        crate::search::lemma_first_index_props(
            pre.configs@,
            config_matches(rec.scope, rec.transaction_type),
        );
        assert(config_index(post.configs@, rec.scope, rec.transaction_type) == cj);
        if cj == ci {
            // then rec belongs to (scope, transaction_type) and is linked there,
            // so it is the record being demoted: contradiction with rj != ri
            assert(pre.configs@[ci].linked_algorithm_id == Some(rec.id));
            assert(rec.id == prev_id);
            assert(pre.store.records@[ri].id == prev_id);
            if rj < ri {
                assert(pre.store.records@[rj].id < pre.store.records@[ri].id);
            }
            if ri < rj {
                assert(pre.store.records@[ri].id < pre.store.records@[rj].id);
            }
            assert(false);
        }
        assert(post.configs@[cj] == pre.configs@[cj]);
    }
}

/// The record table after the previously linked algorithm of one scope and
/// transaction type (if any) is demoted to `Inactive`.
pub open spec fn demote_previous(
    pre: Engine,
    scope: Scope,
    transaction_type: TransactionType,
) -> Seq<RoutingAlgorithm> {
    match linked_of(pre, scope, transaction_type) {
        Some(prev_id) => {
            let pi = record_index(pre.store.records@, prev_id);
            if pi >= 0 {
                pre.store.records@.update(
                    pi,
                    RoutingAlgorithm {
                        status: AlgorithmStatus::Inactive,
                        ..pre.store.records@[pi]
                    },
                )
            } else {
                pre.store.records@
            }
        },
        None => pre.store.records@,
    }
}

/// What `link_algorithm` does, as a relation between the engine before and
/// after the call. A held scope lock blocks the call; an absent or foreign
/// record is `NotFound`; otherwise, atomically, the previously active
/// record is demoted, the target becomes `Active`, and the scope's config
/// points at it. Every path leaves the lock set as it found it.
pub open spec fn link_rel(
    pre: Engine,
    post: Engine,
    scope: Scope,
    transaction_type: TransactionType,
    algorithm_id: u64,
    r: Result<(), RoutingError>,
) -> bool {
    let key = LockKey::Activation { scope, transaction_type };
    let ri = record_index(pre.store.records@, algorithm_id);
    &&& same_locks(post, pre)
    &&& if holds_lock(pre.locks, key) {
        r == Err::<(), RoutingError>(RoutingError::ConcurrentModification) && same_state(post, pre)
    } else if ri < 0 || !(pre.store.records@[ri].scope == scope
        && pre.store.records@[ri].transaction_type == transaction_type) {
        r == Err::<(), RoutingError>(RoutingError::NotFound) && same_state(post, pre)
    } else {
        let ci = config_index(pre.configs@, scope, transaction_type);
        let demoted = demote_previous(pre, scope, transaction_type);
        &&& r == Ok::<(), RoutingError>(())
        &&& post.store.records@ == demoted.update(
            ri,
            RoutingAlgorithm { status: AlgorithmStatus::Active, ..demoted[ri] },
        )
        &&& (ci >= 0 ==> post.configs@ == pre.configs@.update(
            ci,
            ConfigEntry { linked_algorithm_id: Some(algorithm_id), ..pre.configs@[ci] },
        ))
        &&& (ci < 0 ==> post.configs@.len() == pre.configs@.len() + 1
            && post.configs@.subrange(0, pre.configs@.len() as int) == pre.configs@
            && post.configs@.last().scope == scope
            && post.configs@.last().transaction_type == transaction_type
            && post.configs@.last().linked_algorithm_id == Some(algorithm_id)
            && post.configs@.last().default_fallback@ == Seq::<ConnectorChoice>::empty())
        &&& post.store.dictionary@ == pre.store.dictionary@
        &&& post.store.next_id == pre.store.next_id
        &&& post.conditional@ == pre.conditional@
        &&& post.surcharge@ == pre.surcharge@
        &&& linked_of(post, scope, transaction_type) == Some(algorithm_id)
        &&& fallback_of(post, scope, transaction_type) == fallback_of(pre, scope, transaction_type)
    }
}

impl Engine {
    /// Links an algorithm as the live decision source of one scope and
    /// transaction type. Fails `NotFound` when the id is absent or the
    /// record belongs to another scope or transaction type; otherwise the
    /// previously active record (if any) is demoted to `Inactive`, the
    /// target becomes `Active`, and the scope's config points at it — one
    /// atomic step under the scope's lock, so no reader ever sees two
    /// active algorithms.
    pub fn link_algorithm(
        &mut self,
        scope: Scope,
        transaction_type: TransactionType,
        algorithm_id: u64,
    ) -> (r: Result<(), RoutingError>)
        requires
            engine_wf(*old(self)),
        ensures
            engine_wf(*final(self)),
            link_rel(*old(self), *final(self), scope, transaction_type, algorithm_id, r),
    {
        let key = LockKey::Activation { scope, transaction_type };
        let ghost held0 = self.locks.held@;
        match self.locks.acquire(key) {
            Err(e) => {
                return Err(e);
            },
            Ok(()) => {},
        }
        let ghost pre = *old(self);
        let ri = match self.store.find_index(algorithm_id) {
            None => {
                self.locks.release(key);
                proof {
                    crate::locks::lemma_key_index_pushed(held0, key);
                }
                return Err(RoutingError::NotFound);
            },
            Some(ri) => ri,
        };
        if !(self.store.records[ri].scope == scope && self.store.records[ri].transaction_type
            == transaction_type) {
            self.locks.release(key);
            proof {
                crate::locks::lemma_key_index_pushed(held0, key);
            }
            return Err(RoutingError::NotFound);
        }
        let ci_found = find_config(&self.configs, scope, transaction_type);
        let previous: Option<u64> = match ci_found {
            Some(ci) => self.configs[ci].linked_algorithm_id,
            None => None,
        };
        match previous {
            Some(prev_id) => {
                match self.store.find_index(prev_id) {
                    Some(pi) => {
                        set_record_status(
                            &mut self.store.records,
                            pi,
                            AlgorithmStatus::Inactive,
                        );
                    },
                    None => {},
                }
            },
            None => {},
        }
        proof {
            assert(self.store.records@ == demote_previous(pre, scope, transaction_type));
        }
        set_record_status(&mut self.store.records, ri, AlgorithmStatus::Active);
        match ci_found {
            Some(ci) => {
                set_config_linked(&mut self.configs, ci, Some(algorithm_id));
                proof {
                    lemma_config_keys_kept(pre.configs@, self.configs@);
                }
            },
            None => {
                self.configs.push(
                    ConfigEntry {
                        scope,
                        transaction_type,
                        linked_algorithm_id: Some(algorithm_id),
                        default_fallback: Vec::new(),
                    },
                );
                proof {
                    assert(self.configs@.subrange(0, pre.configs@.len() as int) =~= pre.configs@);
                }
            },
        }
        proof {
            lemma_wf_after_link(pre, *self, scope, transaction_type, algorithm_id);
        }
        self.locks.release(key);
        proof {
            crate::locks::lemma_key_index_pushed(held0, key);
        }
        Ok(())
    }
}

/// Re-establishes the engine invariant after a successful link, and pins
/// down the scope's view of the result.
proof fn lemma_wf_after_link(
    pre: Engine,
    post: Engine,
    scope: Scope,
    transaction_type: TransactionType,
    algorithm_id: u64,
)
    requires
        engine_wf(pre),
        table_wf(post.locks),
        post.store.dictionary@ == pre.store.dictionary@,
        post.store.next_id == pre.store.next_id,
        post.conditional@ == pre.conditional@,
        post.surcharge@ == pre.surcharge@,
        record_index(pre.store.records@, algorithm_id) >= 0,
        pre.store.records@[record_index(pre.store.records@, algorithm_id)].scope == scope,
        pre.store.records@[record_index(pre.store.records@, algorithm_id)].transaction_type
            == transaction_type,
        post.store.records@ == demote_previous(pre, scope, transaction_type).update(
            record_index(pre.store.records@, algorithm_id),
            RoutingAlgorithm {
                status: AlgorithmStatus::Active,
                ..demote_previous(pre, scope, transaction_type)[record_index(
                    pre.store.records@,
                    algorithm_id,
                )]
            },
        ),
        ({
            let ci = config_index(pre.configs@, scope, transaction_type);
            (ci >= 0 && post.configs@ == pre.configs@.update(
                ci,
                ConfigEntry { linked_algorithm_id: Some(algorithm_id), ..pre.configs@[ci] },
            )) || (ci < 0 && post.configs@.len() == pre.configs@.len() + 1 && post.configs@.subrange(
                0,
                pre.configs@.len() as int,
            ) == pre.configs@ && post.configs@.last().scope == scope
                && post.configs@.last().transaction_type == transaction_type
                && post.configs@.last().linked_algorithm_id == Some(algorithm_id)
                && post.configs@.last().default_fallback@ == Seq::<ConnectorChoice>::empty())
        }),
    ensures
        engine_wf(post),
        linked_of(post, scope, transaction_type) == Some(algorithm_id),
        fallback_of(post, scope, transaction_type) == fallback_of(pre, scope, transaction_type),
{
    let ci = config_index(pre.configs@, scope, transaction_type);
    let ri = record_index(pre.store.records@, algorithm_id);
    let demoted = demote_previous(pre, scope, transaction_type);
    crate::search::lemma_first_index_props(pre.configs@, config_matches(scope, transaction_type));
    crate::search::lemma_first_index_props(
        pre.store.records@,
        crate::store::record_has_id(algorithm_id),
    );
    let ghost prev = linked_of(pre, scope, transaction_type);
    if prev is Some {
        crate::search::lemma_first_index_props(
            pre.store.records@,
            crate::store::record_has_id(prev->Some_0),
        );
    }
    assert(forall|i: int|
        0 <= i < post.store.records@.len() ==> (#[trigger] post.store.records@[i]).id
            == pre.store.records@[i].id && post.store.records@[i].created_at
            == pre.store.records@[i].created_at && post.store.records@[i].body
            == pre.store.records@[i].body && post.store.records@[i].scope
            == pre.store.records@[i].scope && post.store.records@[i].transaction_type
            == pre.store.records@[i].transaction_type && post.store.records@[i].name
            == pre.store.records@[i].name && post.store.records@[i].description
            == pre.store.records@[i].description);
    assert(store_wf(post.store)) by {
        assert forall|i: int|
            0 <= i < post.store.records@.len() implies (#[trigger] post.store.dictionary@[i])
                == crate::store::entry_of(post.store.records@[i]) by {
            assert(pre.store.dictionary@[i] == crate::store::entry_of(pre.store.records@[i]));
        }
    }
    assert forall|id: u64|
        #[trigger] record_index(post.store.records@, id) == record_index(
            pre.store.records@,
            id,
        ) by {
        lemma_first_index_congruence(
            pre.store.records@,
            post.store.records@,
            crate::store::record_has_id(id),
        );
    }
    if ci >= 0 {
        lemma_config_keys_kept(pre.configs@, post.configs@);
    } else {
        assert(forall|k: int|
            0 <= k < pre.configs@.len() ==> (#[trigger] post.configs@[k]) == pre.configs@[k]);
    }
    // where each scope's config search lands after the change
    assert forall|s2: Scope, t2: TransactionType|
        !(s2 == scope && t2 == transaction_type) implies #[trigger] config_index(
        post.configs@,
        s2,
        t2,
    ) == config_index(pre.configs@, s2, t2) by {
        if ci >= 0 {
            lemma_first_index_congruence(pre.configs@, post.configs@, config_matches(s2, t2));
        } else {
            assert(post.configs@ =~= pre.configs@.push(post.configs@.last()));
            lemma_first_index_push(pre.configs@, config_matches(s2, t2), post.configs@.last());
        }
    }
    let post_ci: int = if ci >= 0 {
        ci
    } else {
        pre.configs@.len() as int
    };
    assert(config_index(post.configs@, scope, transaction_type) == post_ci) by {
        if ci >= 0 {
            lemma_config_keys_kept(pre.configs@, post.configs@);
            lemma_first_index_congruence(
                pre.configs@,
                post.configs@,
                config_matches(scope, transaction_type),
            );
        } else {
            assert(post.configs@ =~= pre.configs@.push(post.configs@.last()));
            lemma_first_index_push(
                pre.configs@,
                config_matches(scope, transaction_type),
                post.configs@.last(),
            );
        }
    }
    assert(post.configs@[post_ci].linked_algorithm_id == Some(algorithm_id));
    // configs stay unique per scope and transaction type
    assert forall|i: int, j: int|
        0 <= i < j < post.configs@.len() implies !(post.configs@[i].scope == post.configs@[j].scope
            && post.configs@[i].transaction_type == post.configs@[j].transaction_type) by {
        if ci < 0 && j == post.configs@.len() - 1 {
            assert(post.configs@[i] == pre.configs@[i]);
            if post.configs@[i].scope == scope && post.configs@[i].transaction_type
                == transaction_type {
                crate::search::lemma_first_index_none(
                    pre.configs@,
                    config_matches(scope, transaction_type),
                );
                assert((config_matches(scope, transaction_type))(pre.configs@[i]));
                crate::search::lemma_first_index_props(
                    pre.configs@,
                    config_matches(scope, transaction_type),
                );
                assert(false);
            }
        }
    }
    // every config still points at an existing active record of its own key
    assert forall|k: int|
        0 <= k < post.configs@.len() implies linked_ok(post, #[trigger] post.configs@[k]) by {
        if k == post_ci {
            assert(post.store.records@[ri].id == algorithm_id);
            assert(post.store.records@[ri].status is Active);
        } else {
            assert(k < pre.configs@.len());
            assert(linked_ok(pre, pre.configs@[k]));
            assert(post.configs@[k].linked_algorithm_id == pre.configs@[k].linked_algorithm_id);
            match pre.configs@[k].linked_algorithm_id {
                Some(id2) => {
                    let rk = record_index(pre.store.records@, id2);
                    crate::search::lemma_first_index_props(
                        pre.store.records@,
                        crate::store::record_has_id(id2),
                    );
                    assert(pre.store.records@[rk].scope == pre.configs@[k].scope);
                    assert(!(pre.configs@[k].scope == scope && pre.configs@[k].transaction_type
                        == transaction_type));
                    assert(rk != ri);
                    if prev is Some {
                        let pi = record_index(pre.store.records@, prev->Some_0);
                        if rk == pi {
                            assert(pre.store.records@[pi].scope == scope);
                            assert(pre.store.records@[pi].transaction_type == transaction_type);
                            assert(false);
                        }
                    }
                    assert(post.store.records@[rk] == pre.store.records@[rk]);
                },
                None => {},
            }
        }
    }
    // every active record is the one its config points at
    assert forall|rj: int|
        0 <= rj < post.store.records@.len() && (#[trigger] post.store.records@[rj]).status
            is Active implies active_ok(post, post.store.records@[rj]) by {
        if rj == ri {
            assert(post.configs@[post_ci].linked_algorithm_id == Some(
                post.store.records@[rj].id,
            ));
        } else {
            let rec = pre.store.records@[rj];
            if prev is Some && rj == record_index(pre.store.records@, prev->Some_0) {
                assert(post.store.records@[rj].status is Inactive);
                assert(false);
            }
            assert(rec.status is Active);
            assert(active_ok(pre, rec));
            let cj = config_index(pre.configs@, rec.scope, rec.transaction_type);
            crate::search::lemma_first_index_props(
                pre.configs@,
                config_matches(rec.scope, rec.transaction_type),
            );
            if rec.scope == scope && rec.transaction_type == transaction_type {
                // then the old config pointed at rec, so rec was the previously
                // linked record and has just been demoted: contradiction
                assert(cj == ci);
                assert(prev == Some(rec.id));
                let pi = record_index(pre.store.records@, rec.id);
                crate::search::lemma_first_index_props(
                    pre.store.records@,
                    crate::store::record_has_id(rec.id),
                );
                if pi < rj {
                    assert(pre.store.records@[pi].id < pre.store.records@[rj].id);
                }
                if rj < pi {
                    assert(pre.store.records@[rj].id < pre.store.records@[pi].id);
                }
                assert(pi == rj);
                assert(false);
            }
            assert(config_index(post.configs@, rec.scope, rec.transaction_type) == cj);
            assert(post.configs@[cj] == pre.configs@[cj]);
            assert(post.store.records@[rj].id == rec.id);
        }
    }
}

/// The conditional-config program of one scope, if any.
pub open spec fn conditional_program_of(e: Engine, scope: Scope) -> Option<
    RuleProgram<RoutingOutput>,
> {
    let pi = conditional_index(e.conditional@, scope);
    if pi >= 0 {
        Some(e.conditional@[pi].program)
    } else {
        None
    }
}

/// The surcharge program of one scope, if any.
pub open spec fn surcharge_program_of(e: Engine, scope: Scope) -> Option<
    RuleProgram<SurchargeSpec>,
> {
    let pi = surcharge_index(e.surcharge@, scope);
    if pi >= 0 {
        Some(e.surcharge@[pi].program)
    } else {
        None
    }
}

/// The algorithm id a routing decision resolves, before the store is
/// consulted: the conditional program's choice when the scope has one,
/// else whatever the activation config links.
pub open spec fn chosen_algorithm(
    e: Engine,
    scope: Scope,
    transaction_type: TransactionType,
    entries: Seq<crate::expression::Attribute>,
) -> Option<u64> {
    match conditional_program_of(e, scope) {
        Some(p) => match decide_spec(p, entries) {
            RoutingOutput::UseAlgorithm { algorithm_id } => Some(algorithm_id),
            RoutingOutput::UseDefaultFallback => None,
        },
        None => linked_of(e, scope, transaction_type),
    }
}

/// What the resolved algorithm yields: its body's evaluation when the
/// record exists and the caller's scope owns it, else nothing — a stale or
/// foreign reference degrades to the fallback tier instead of failing.
pub open spec fn candidate_list(
    e: Engine,
    scope: Scope,
    transaction_type: TransactionType,
    entries: Seq<crate::expression::Attribute>,
) -> Seq<ConnectorChoice> {
    match chosen_algorithm(e, scope, transaction_type, entries) {
        Some(id) => {
            let ri = record_index(e.store.records@, id);
            if ri >= 0 && scope.spec_owns(e.store.records@[ri].scope) {
                eval_body(e.store.records@[ri].body, entries)
            } else {
                Seq::empty()
            }
        },
        None => Seq::empty(),
    }
}

/// The whole routing decision: the resolved algorithm's non-empty result
/// if it has one, else the scope's non-empty fallback list, else the one
/// terminal failure, `NoRoutingDestination`.
pub open spec fn decide_routing_spec(
    e: Engine,
    scope: Scope,
    transaction_type: TransactionType,
    entries: Seq<crate::expression::Attribute>,
) -> Result<Seq<ConnectorChoice>, RoutingError> {
    let cand = candidate_list(e, scope, transaction_type, entries);
    if cand.len() > 0 {
        Ok(cand)
    } else {
        let fb = fallback_of(e, scope, transaction_type);
        if fb.len() > 0 {
            Ok(fb)
        } else {
            Err(RoutingError::NoRoutingDestination)
        }
    }
}

/// The surcharge decision: the scope's surcharge program if it has one,
/// else no surcharge — never an error.
pub open spec fn decide_surcharge_spec(
    e: Engine,
    scope: Scope,
    entries: Seq<crate::expression::Attribute>,
) -> SurchargeSpec {
    match surcharge_program_of(e, scope) {
        Some(p) => decide_spec(p, entries),
        None => SurchargeSpec::NoSurcharge,
    }
}

impl Engine {
    /// Decides the ordered connector preference list for one transaction.
    /// Reads a consistent snapshot, takes no lock, and degrades gracefully:
    /// a missing program, a stale algorithm reference or an empty
    /// evaluation all fall through to the next tier, and only an exhausted
    /// fallback list fails.
    pub fn decide_routing(
        &self,
        scope: Scope,
        transaction_type: TransactionType,
        attributes: &AttributeBag,
    ) -> (r: Result<Vec<ConnectorChoice>, RoutingError>)
        ensures
            ({
                let d = decide_routing_spec(*self, scope, transaction_type, attributes.entries@);
                match r {
                    Ok(v) => d matches Ok(cs) && cs == v@,
                    Err(e) => d matches Err(e2) && e2 == e,
                }
            }),
    {
        let chosen: Option<u64> = match find_conditional(&self.conditional, scope) {
            Some(pi) => {
                let out = decide(&self.conditional[pi].program, attributes);
                match out {
                    RoutingOutput::UseAlgorithm { algorithm_id } => Some(*algorithm_id),
                    RoutingOutput::UseDefaultFallback => None,
                }
            },
            None => match find_config(&self.configs, scope, transaction_type) {
                Some(ci) => self.configs[ci].linked_algorithm_id,
                None => None,
            },
        };
        let candidate: Vec<ConnectorChoice> = match chosen {
            Some(id) => match self.store.find_index(id) {
                Some(ri) => {
                    if scope.owns(&self.store.records[ri].scope) {
                        evaluate_body(&self.store.records[ri].body, attributes)
                    } else {
                        Vec::new()
                    }
                },
                None => Vec::new(),
            },
            None => Vec::new(),
        };
        proof {
            assert(candidate@ == candidate_list(*self, scope, transaction_type, attributes.entries@));
        }
        if candidate.len() > 0 {
            return Ok(candidate);
        }
        match find_config(&self.configs, scope, transaction_type) {
            Some(ci) => {
                if self.configs[ci].default_fallback.len() > 0 {
                    return Ok(copy_choices(&self.configs[ci].default_fallback));
                }
            },
            None => {},
        }
        Err(RoutingError::NoRoutingDestination)
    }

    /// Decides the surcharge for one transaction: the scope's surcharge
    /// program when one is configured, else no surcharge. Total; takes no
    /// lock; never an error.
    pub fn decide_surcharge(&self, scope: Scope, attributes: &AttributeBag) -> (r: SurchargeSpec)
        ensures
            r == decide_surcharge_spec(*self, scope, attributes.entries@),
    {
        match find_surcharge(&self.surcharge, scope) {
            Some(pi) => *decide(&self.surcharge[pi].program, attributes),
            None => SurchargeSpec::NoSurcharge,
        }
    }

    /// Creates a routing algorithm record under one scope: see
    /// [`AlgorithmStore::create`]. Creation touches no activation state and
    /// so needs no scope lock; the record starts at `Created`, not live.
    pub fn create_algorithm(
        &mut self,
        scope: Scope,
        transaction_type: TransactionType,
        name: String,
        description: String,
        body: crate::algorithm::AlgorithmBody,
    ) -> (r: Result<u64, RoutingError>)
        requires
            engine_wf(*old(self)),
            old(self).store.next_id < u64::MAX,
        ensures
            engine_wf(*final(self)),
            same_locks(*final(self), *old(self)),
            final(self).configs@ == old(self).configs@,
            final(self).conditional@ == old(self).conditional@,
            final(self).surcharge@ == old(self).surcharge@,
            match r {
                Ok(id) => {
                    &&& name@.len() <= crate::types::MAX_ALGORITHM_NAME_LEN
                    &&& valid_body(body)
                    &&& id == old(self).store.next_id
                    &&& final(self).store.records@ == old(self).store.records@.push(
                        created_record(
                            old(self).store,
                            scope,
                            transaction_type,
                            name,
                            description,
                            body,
                        ),
                    )
                    &&& final(self).store.dictionary@ == old(self).store.dictionary@.push(
                        entry_of(
                            created_record(
                                old(self).store,
                                scope,
                                transaction_type,
                                name,
                                description,
                                body,
                            ),
                        ),
                    )
                    &&& final(self).store.next_id == old(self).store.next_id + 1
                },
                Err(RoutingError::NameTooLong) => name@.len()
                    > crate::types::MAX_ALGORITHM_NAME_LEN && same_state(*final(self), *old(self)),
                Err(RoutingError::ValidationError) => name@.len()
                    <= crate::types::MAX_ALGORITHM_NAME_LEN && !valid_body(body) && same_state(
                    *final(self),
                    *old(self),
                ),
                Err(_) => false,
            },
    {
        let ghost pre = *self;
        let r = self.store.create(scope, transaction_type, name, description, body);
        proof {
            if r is Ok {
                assert(self.store.records@.subrange(0, pre.store.records@.len() as int)
                    =~= pre.store.records@);
                lemma_wf_after_create(pre, *self);
            }
        }
        r
    }

    /// Retrieves a routing algorithm record by id: see
    /// [`AlgorithmStore::get`].
    pub fn get_algorithm(&self, scope: Scope, algorithm_id: u64) -> (r: Result<
        &RoutingAlgorithm,
        RoutingError,
    >)
        ensures
            ({
                let ri = record_index(self.store.records@, algorithm_id);
                match r {
                    Ok(rec) => ri >= 0 && *rec == self.store.records@[ri] && scope.spec_owns(
                        rec.scope,
                    ),
                    Err(e) => e == RoutingError::NotFound && (ri == -1 || !scope.spec_owns(
                        self.store.records@[ri].scope,
                    )),
                }
            }),
    {
        self.store.get(scope, algorithm_id)
    }

    /// Lists one scope's dictionary entries, newest first, with offset and
    /// limit: see [`AlgorithmStore::list`].
    pub fn list_algorithms(
        &self,
        scope: Scope,
        transaction_type: TransactionType,
        offset: usize,
        limit: usize,
    ) -> (r: Vec<DictionaryEntry>)
        ensures
            r@ == list_spec(
                self.store.dictionary@,
                scope,
                transaction_type,
                offset as int,
                limit as int,
            ),
    {
        self.store.list(scope, transaction_type, offset, limit)
    }
}

/// Re-establishes the engine invariant after a record is created: the new
/// record is not yet live, and every existing reference is untouched.
proof fn lemma_wf_after_create(pre: Engine, post: Engine)
    requires
        engine_wf(pre),
        store_wf(post.store),
        table_wf(post.locks),
        post.configs@ == pre.configs@,
        post.conditional@ == pre.conditional@,
        post.surcharge@ == pre.surcharge@,
        post.store.records@.len() == pre.store.records@.len() + 1,
        post.store.records@.subrange(0, pre.store.records@.len() as int) == pre.store.records@,
        !(post.store.records@.last().status is Active),
    ensures
        engine_wf(post),
{
    assert(forall|i: int|
        0 <= i < pre.store.records@.len() ==> (#[trigger] post.store.records@[i])
            == pre.store.records@[i]);
    assert(post.store.records@ =~= pre.store.records@.push(post.store.records@.last()));
    assert forall|k: int|
        0 <= k < post.configs@.len() implies linked_ok(post, #[trigger] post.configs@[k]) by {
        assert(linked_ok(pre, pre.configs@[k]));
        match pre.configs@[k].linked_algorithm_id {
            Some(id) => {
                let rk = record_index(pre.store.records@, id);
                crate::search::lemma_first_index_props(pre.store.records@, record_has_id(id));
                lemma_first_index_push(
                    pre.store.records@,
                    record_has_id(id),
                    post.store.records@.last(),
                );
                assert(record_index(post.store.records@, id) == rk);
            },
            None => {},
        }
    }
    assert forall|rj: int|
        0 <= rj < post.store.records@.len() && (#[trigger] post.store.records@[rj]).status
            is Active implies active_ok(post, post.store.records@[rj]) by {
        assert(rj < pre.store.records@.len());
        assert(active_ok(pre, pre.store.records@[rj]));
    }
}

impl Engine {
    /// Replaces (or installs) one scope's conditional-config program
    /// wholesale: authors always submit the complete rule set, so there is
    /// no partial edit to order against. Outputs may name algorithm ids
    /// that do not exist yet; they are resolved lazily at decision time.
    pub fn upsert_conditional_config(
        &mut self,
        scope: Scope,
        program: RuleProgram<RoutingOutput>,
    ) -> (r: Result<(), RoutingError>)
        requires
            engine_wf(*old(self)),
        ensures
            engine_wf(*final(self)),
            same_locks(*final(self), *old(self)),
            ({
                let key = LockKey::Programs { scope };
                let pre = *old(self);
                let post = *final(self);
                if holds_lock(pre.locks, key) {
                    r == Err::<(), RoutingError>(RoutingError::ConcurrentModification)
                        && same_state(post, pre)
                } else {
                    let pi = conditional_index(pre.conditional@, scope);
                    &&& r == Ok::<(), RoutingError>(())
                    &&& (pi >= 0 ==> post.conditional@ == pre.conditional@.update(
                        pi,
                        ConditionalEntry { scope, program },
                    ))
                    &&& (pi < 0 ==> post.conditional@ == pre.conditional@.push(
                        ConditionalEntry { scope, program },
                    ))
                    &&& conditional_program_of(post, scope) == Some(program)
                    &&& post.store.records@ == pre.store.records@
                    &&& post.store.dictionary@ == pre.store.dictionary@
                    &&& post.store.next_id == pre.store.next_id
                    &&& post.configs@ == pre.configs@
                    &&& post.surcharge@ == pre.surcharge@
                }
            }),
    {
        let key = LockKey::Programs { scope };
        let ghost held0 = self.locks.held@;
        match self.locks.acquire(key) {
            Err(e) => {
                return Err(e);
            },
            Ok(()) => {},
        }
        let ghost pre = *old(self);
        match find_conditional(&self.conditional, scope) {
            Some(pi) => {
                self.conditional[pi] = ConditionalEntry { scope, program };
                proof {
                    assert(forall|i: int|
                        0 <= i < pre.conditional@.len() ==> (#[trigger] self.conditional@[i]).scope
                            == pre.conditional@[i].scope);
                    lemma_first_index_congruence(
                        pre.conditional@,
                        self.conditional@,
                        conditional_matches(scope),
                    );
                    crate::search::lemma_first_index_props(
                        pre.conditional@,
                        conditional_matches(scope),
                    );
                }
            },
            None => {
                self.conditional.push(ConditionalEntry { scope, program });
                proof {
                    lemma_first_index_push(
                        pre.conditional@,
                        conditional_matches(scope),
                        self.conditional@.last(),
                    );
                    crate::search::lemma_first_index_props(
                        pre.conditional@,
                        conditional_matches(scope),
                    );
                }
            },
        }
        self.locks.release(key);
        proof {
            crate::locks::lemma_key_index_pushed(held0, key);
        }
        Ok(())
    }

    /// Retrieves one scope's conditional-config program. A scope without a
    /// program is a legitimate, common state: `NotFound` reports it.
    pub fn retrieve_conditional_config(&self, scope: Scope) -> (r: Result<
        &RuleProgram<RoutingOutput>,
        RoutingError,
    >)
        ensures
            match r {
                Ok(p) => conditional_program_of(*self, scope) == Some(*p),
                Err(e) => e == RoutingError::NotFound && conditional_program_of(*self, scope)
                    is None,
            },
    {
        match find_conditional(&self.conditional, scope) {
            Some(pi) => Ok(&self.conditional[pi].program),
            None => Err(RoutingError::NotFound),
        }
    }

    /// Removes one scope's conditional-config program wholesale. Fails
    /// `NotFound` when none is configured.
    pub fn delete_conditional_config(&mut self, scope: Scope) -> (r: Result<(), RoutingError>)
        requires
            engine_wf(*old(self)),
        ensures
            engine_wf(*final(self)),
            same_locks(*final(self), *old(self)),
            ({
                let key = LockKey::Programs { scope };
                let pre = *old(self);
                let post = *final(self);
                if holds_lock(pre.locks, key) {
                    r == Err::<(), RoutingError>(RoutingError::ConcurrentModification)
                        && same_state(post, pre)
                } else {
                    let pi = conditional_index(pre.conditional@, scope);
                    if pi < 0 {
                        r == Err::<(), RoutingError>(RoutingError::NotFound) && same_state(
                            post,
                            pre,
                        )
                    } else {
                        &&& r == Ok::<(), RoutingError>(())
                        &&& post.conditional@ == pre.conditional@.remove(pi)
                        &&& conditional_program_of(post, scope) is None
                        &&& post.store.records@ == pre.store.records@
                        &&& post.store.dictionary@ == pre.store.dictionary@
                        &&& post.store.next_id == pre.store.next_id
                        &&& post.configs@ == pre.configs@
                        &&& post.surcharge@ == pre.surcharge@
                    }
                }
            }),
    {
        let key = LockKey::Programs { scope };
        let ghost held0 = self.locks.held@;
        match self.locks.acquire(key) {
            Err(e) => {
                return Err(e);
            },
            Ok(()) => {},
        }
        let ghost pre = *old(self);
        match find_conditional(&self.conditional, scope) {
            Some(pi) => {
                self.conditional.remove(pi);
                proof {
                    assert forall|p: int, q: int|
                        0 <= p < q < self.conditional@.len() implies self.conditional@[p].scope
                            != self.conditional@[q].scope by {
                        if p < pi {
                            assert(self.conditional@[p] == pre.conditional@[p]);
                        } else {
                            assert(self.conditional@[p] == pre.conditional@[p + 1]);
                        }
                        if q < pi {
                            assert(self.conditional@[q] == pre.conditional@[q]);
                        } else {
                            assert(self.conditional@[q] == pre.conditional@[q + 1]);
                        }
                    }
                    assert forall|j: int|
                        0 <= j < self.conditional@.len() implies (#[trigger] self.conditional@[j]).scope
                            != scope by {
                        if j < pi {
                            assert(self.conditional@[j] == pre.conditional@[j]);
                        } else {
                            assert(self.conditional@[j] == pre.conditional@[j + 1]);
                        }
                    }
                    crate::search::lemma_first_index_none(
                        self.conditional@,
                        conditional_matches(scope),
                    );
                }
                self.locks.release(key);
                proof {
                    crate::locks::lemma_key_index_pushed(held0, key);
                }
                Ok(())
            },
            None => {
                self.locks.release(key);
                proof {
                    crate::locks::lemma_key_index_pushed(held0, key);
                }
                Err(RoutingError::NotFound)
            },
        }
    }

    /// Replaces (or installs) one scope's surcharge program wholesale, as
    /// [`Engine::upsert_conditional_config`] does for routing.
    pub fn upsert_surcharge_config(
        &mut self,
        scope: Scope,
        program: RuleProgram<SurchargeSpec>,
    ) -> (r: Result<(), RoutingError>)
        requires
            engine_wf(*old(self)),
        ensures
            engine_wf(*final(self)),
            same_locks(*final(self), *old(self)),
            ({
                let key = LockKey::Programs { scope };
                let pre = *old(self);
                let post = *final(self);
                if holds_lock(pre.locks, key) {
                    r == Err::<(), RoutingError>(RoutingError::ConcurrentModification)
                        && same_state(post, pre)
                } else {
                    let pi = surcharge_index(pre.surcharge@, scope);
                    &&& r == Ok::<(), RoutingError>(())
                    &&& (pi >= 0 ==> post.surcharge@ == pre.surcharge@.update(
                        pi,
                        SurchargeEntry { scope, program },
                    ))
                    &&& (pi < 0 ==> post.surcharge@ == pre.surcharge@.push(
                        SurchargeEntry { scope, program },
                    ))
                    &&& surcharge_program_of(post, scope) == Some(program)
                    &&& post.store.records@ == pre.store.records@
                    &&& post.store.dictionary@ == pre.store.dictionary@
                    &&& post.store.next_id == pre.store.next_id
                    &&& post.configs@ == pre.configs@
                    &&& post.conditional@ == pre.conditional@
                }
            }),
    {
        let key = LockKey::Programs { scope };
        let ghost held0 = self.locks.held@;
        match self.locks.acquire(key) {
            Err(e) => {
                return Err(e);
            },
            Ok(()) => {},
        }
        let ghost pre = *old(self);
        match find_surcharge(&self.surcharge, scope) {
            Some(pi) => {
                self.surcharge[pi] = SurchargeEntry { scope, program };
                proof {
                    assert(forall|i: int|
                        0 <= i < pre.surcharge@.len() ==> (#[trigger] self.surcharge@[i]).scope
                            == pre.surcharge@[i].scope);
                    lemma_first_index_congruence(
                        pre.surcharge@,
                        self.surcharge@,
                        surcharge_matches(scope),
                    );
                    crate::search::lemma_first_index_props(
                        pre.surcharge@,
                        surcharge_matches(scope),
                    );
                }
            },
            None => {
                self.surcharge.push(SurchargeEntry { scope, program });
                proof {
                    lemma_first_index_push(
                        pre.surcharge@,
                        surcharge_matches(scope),
                        self.surcharge@.last(),
                    );
                    crate::search::lemma_first_index_props(
                        pre.surcharge@,
                        surcharge_matches(scope),
                    );
                }
            },
        }
        self.locks.release(key);
        proof {
            crate::locks::lemma_key_index_pushed(held0, key);
        }
        Ok(())
    }

    /// Retrieves one scope's surcharge program; `NotFound` when none is
    /// configured.
    pub fn retrieve_surcharge_config(&self, scope: Scope) -> (r: Result<
        &RuleProgram<SurchargeSpec>,
        RoutingError,
    >)
        ensures
            match r {
                Ok(p) => surcharge_program_of(*self, scope) == Some(*p),
                Err(e) => e == RoutingError::NotFound && surcharge_program_of(*self, scope)
                    is None,
            },
    {
        match find_surcharge(&self.surcharge, scope) {
            Some(pi) => Ok(&self.surcharge[pi].program),
            None => Err(RoutingError::NotFound),
        }
    }

    /// Removes one scope's surcharge program wholesale. Fails `NotFound`
    /// when none is configured.
    pub fn delete_surcharge_config(&mut self, scope: Scope) -> (r: Result<(), RoutingError>)
        requires
            engine_wf(*old(self)),
        ensures
            engine_wf(*final(self)),
            same_locks(*final(self), *old(self)),
            ({
                let key = LockKey::Programs { scope };
                let pre = *old(self);
                let post = *final(self);
                if holds_lock(pre.locks, key) {
                    r == Err::<(), RoutingError>(RoutingError::ConcurrentModification)
                        && same_state(post, pre)
                } else {
                    let pi = surcharge_index(pre.surcharge@, scope);
                    if pi < 0 {
                        r == Err::<(), RoutingError>(RoutingError::NotFound) && same_state(
                            post,
                            pre,
                        )
                    } else {
                        &&& r == Ok::<(), RoutingError>(())
                        &&& post.surcharge@ == pre.surcharge@.remove(pi)
                        &&& surcharge_program_of(post, scope) is None
                        &&& post.store.records@ == pre.store.records@
                        &&& post.store.dictionary@ == pre.store.dictionary@
                        &&& post.store.next_id == pre.store.next_id
                        &&& post.configs@ == pre.configs@
                        &&& post.conditional@ == pre.conditional@
                    }
                }
            }),
    {
        let key = LockKey::Programs { scope };
        let ghost held0 = self.locks.held@;
        match self.locks.acquire(key) {
            Err(e) => {
                return Err(e);
            },
            Ok(()) => {},
        }
        let ghost pre = *old(self);
        match find_surcharge(&self.surcharge, scope) {
            Some(pi) => {
                self.surcharge.remove(pi);
                proof {
                    assert forall|p: int, q: int|
                        0 <= p < q < self.surcharge@.len() implies self.surcharge@[p].scope
                            != self.surcharge@[q].scope by {
                        if p < pi {
                            assert(self.surcharge@[p] == pre.surcharge@[p]);
                        } else {
                            assert(self.surcharge@[p] == pre.surcharge@[p + 1]);
                        }
                        if q < pi {
                            assert(self.surcharge@[q] == pre.surcharge@[q]);
                        } else {
                            assert(self.surcharge@[q] == pre.surcharge@[q + 1]);
                        }
                    }
                    assert forall|j: int|
                        0 <= j < self.surcharge@.len() implies (#[trigger] self.surcharge@[j]).scope
                            != scope by {
                        if j < pi {
                            assert(self.surcharge@[j] == pre.surcharge@[j]);
                        } else {
                            assert(self.surcharge@[j] == pre.surcharge@[j + 1]);
                        }
                    }
                    crate::search::lemma_first_index_none(
                        self.surcharge@,
                        surcharge_matches(scope),
                    );
                }
                self.locks.release(key);
                proof {
                    crate::locks::lemma_key_index_pushed(held0, key);
                }
                Ok(())
            },
            None => {
                self.locks.release(key);
                proof {
                    crate::locks::lemma_key_index_pushed(held0, key);
                }
                Err(RoutingError::NotFound)
            },
        }
    }
}

/// Unlink is idempotent: after an unlink succeeds, a second unlink of the
/// same scope and transaction type reports `NothingLinked` and moves
/// nothing — the first call already left the pointer clear.
pub proof fn lemma_unlink_idempotent(
    s0: Engine,
    s1: Engine,
    s2: Engine,
    scope: Scope,
    transaction_type: TransactionType,
    r1: Result<(), RoutingError>,
    r2: Result<(), RoutingError>,
)
    requires
        unlink_rel(s0, s1, scope, transaction_type, r1),
        r1 == Ok::<(), RoutingError>(()),
        unlink_rel(s1, s2, scope, transaction_type, r2),
    ensures
        r2 == Err::<(), RoutingError>(RoutingError::NothingLinked),
        same_state(s2, s1),
{
    let key = LockKey::Activation { scope, transaction_type };
    assert(!holds_lock(s0.locks, key));
    assert(holds_lock(s1.locks, key) == holds_lock(s0.locks, key));
    assert(linked_of(s1, scope, transaction_type) is None);
}

/// Fallback totality: whatever the attribute bag, a scope whose default
/// fallback list is non-empty always gets a non-empty routing decision —
/// with no program and no linked algorithm, the fallback itself is it.
pub proof fn lemma_fallback_totality(
    e: Engine,
    scope: Scope,
    transaction_type: TransactionType,
    entries: Seq<crate::expression::Attribute>,
)
    requires
        fallback_of(e, scope, transaction_type).len() > 0,
    ensures
        decide_routing_spec(e, scope, transaction_type, entries) matches Ok(cs) && cs.len() > 0,
{
}

} // verus!
