//! The algorithm store: versioned records of routing algorithm bodies plus
//! the lightweight dictionary entries used for list views. Records are
//! immutable once created, except for their lifecycle status, which the
//! activation manager flips. Ids are fresh, opaque and strictly increasing;
//! the creation stamp grows with them, so listing newest-first is listing
//! in reverse insertion order.

use vstd::prelude::*;
use vstd::string::StrSliceExecFns;

use crate::algorithm::{
    body_kind, kind_of, valid_body, validate_body, AlgorithmBody, AlgorithmKind, AlgorithmStatus,
};
use crate::search::{first_index, lemma_first_index_at, lemma_first_index_none};
use crate::types::{RoutingError, Scope, TransactionType, MAX_ALGORITHM_NAME_LEN};

verus! {

/// A stored routing algorithm. Everything but `status` is fixed at
/// creation; `status` moves between `Created`, `Active` and `Inactive`
/// under the activation manager's control.
#[derive(Debug)]
pub struct RoutingAlgorithm {
    pub id: u64,
    pub scope: Scope,
    pub transaction_type: TransactionType,
    pub name: String,
    pub description: String,
    pub created_at: u64,
    pub body: AlgorithmBody,
    pub status: AlgorithmStatus,
}

/// The projection of a record used for list views: everything a dictionary
/// needs without materializing the body.
#[derive(Debug)]
pub struct DictionaryEntry {
    pub id: u64,
    pub scope: Scope,
    pub transaction_type: TransactionType,
    pub name: String,
    pub description: String,
    pub created_at: u64,
    pub kind: AlgorithmKind,
}

/// The dictionary projection of a record.
pub open spec fn entry_of(rec: RoutingAlgorithm) -> DictionaryEntry {
    DictionaryEntry {
        id: rec.id,
        scope: rec.scope,
        transaction_type: rec.transaction_type,
        name: rec.name,
        description: rec.description,
        created_at: rec.created_at,
        kind: body_kind(rec.body),
    }
}

/// The record a successful `create` appends, given the store it is
/// appended to and the creation arguments.
pub open spec fn created_record(
    pre: AlgorithmStore,
    scope: Scope,
    transaction_type: TransactionType,
    name: String,
    description: String,
    body: AlgorithmBody,
) -> RoutingAlgorithm {
    RoutingAlgorithm {
        id: pre.next_id,
        scope,
        transaction_type,
        name,
        description,
        created_at: pre.next_id,
        body,
        status: AlgorithmStatus::Created,
    }
}

/// The algorithm store. Records and dictionary entries are created
/// together and stay aligned index by index.
#[derive(Debug)]
pub struct AlgorithmStore {
    pub records: Vec<RoutingAlgorithm>,
    pub dictionary: Vec<DictionaryEntry>,
    pub next_id: u64,
}

/// Well-formedness of the store: ids are strictly increasing (hence
/// unique) and below the next fresh id, each record's creation stamp is its
/// id, every stored body passed validation, and the dictionary mirrors the
/// records entry by entry.
pub open spec fn store_wf(s: AlgorithmStore) -> bool {
    &&& forall|i: int, j: int|
        0 <= i < j < s.records@.len() ==> s.records@[i].id < s.records@[j].id
    &&& forall|i: int| 0 <= i < s.records@.len() ==> (#[trigger] s.records@[i].id) < s.next_id
    &&& forall|i: int|
        0 <= i < s.records@.len() ==> (#[trigger] s.records@[i].created_at) == s.records@[i].id
    &&& s.dictionary@.len() == s.records@.len()
    &&& forall|i: int|
        0 <= i < s.records@.len() ==> (#[trigger] s.dictionary@[i]) == entry_of(s.records@[i])
    &&& forall|i: int| 0 <= i < s.records@.len() ==> valid_body(#[trigger] s.records@[i].body)
}

/// The predicate a record search matches on: its id.
pub open spec fn record_has_id(id: u64) -> spec_fn(RoutingAlgorithm) -> bool {
    |rec: RoutingAlgorithm| rec.id == id
}

/// The index of the first (under well-formedness, the only) record with
/// the given id, or -1.
pub open spec fn record_index(records: Seq<RoutingAlgorithm>, id: u64) -> int {
    first_index(records, record_has_id(id))
}

impl AlgorithmStore {
    /// An empty store.
    pub fn new() -> (r: AlgorithmStore)
        ensures
            store_wf(r),
            r.records@.len() == 0,
            r.dictionary@.len() == 0,
            r.next_id == 0,
    {
        AlgorithmStore { records: Vec::new(), dictionary: Vec::new(), next_id: 0 }
    }

    /// The index of the record with the given id, if any.
    pub fn find_index(&self, algorithm_id: u64) -> (r: Option<usize>)
        ensures
            match r {
                Some(i) => i as int == record_index(self.records@, algorithm_id) && i
                    < self.records@.len() && self.records@[i as int].id == algorithm_id,
                None => record_index(self.records@, algorithm_id) == -1,
            },
    {
        let n = self.records.len();
        let mut i: usize = 0;
        while i < n
            invariant
                n == self.records@.len(),
                i <= n,
                forall|j: int| 0 <= j < i ==> self.records@[j].id != algorithm_id,
            decreases n - i,
        {
            if self.records[i].id == algorithm_id {
                proof {
                    lemma_first_index_at(self.records@, record_has_id(algorithm_id), i as int);
                }
                return Some(i);
            }
            i += 1;
        }
        proof {
            lemma_first_index_none(self.records@, record_has_id(algorithm_id));
        }
        None
    }

    /// Creates a routing algorithm record. The body is validated against
    /// its kind; the name must stay within the platform limit. On success
    /// the record is appended with a fresh id, its creation stamp, status
    /// `Created`, and a matching dictionary entry.
    pub fn create(
        &mut self,
        scope: Scope,
        transaction_type: TransactionType,
        name: String,
        description: String,
        body: AlgorithmBody,
    ) -> (r: Result<u64, RoutingError>)
        requires
            store_wf(*old(self)),
            old(self).next_id < u64::MAX,
        ensures
            store_wf(*final(self)),
            match r {
                Ok(id) => {
                    &&& name@.len() <= MAX_ALGORITHM_NAME_LEN
                    &&& valid_body(body)
                    &&& id == old(self).next_id
                    &&& final(self).records@ == old(self).records@.push(
                        created_record(*old(self), scope, transaction_type, name, description, body),
                    )
                    &&& final(self).dictionary@ == old(self).dictionary@.push(
                        entry_of(
                            created_record(
                                *old(self),
                                scope,
                                transaction_type,
                                name,
                                description,
                                body,
                            ),
                        ),
                    )
                    &&& final(self).next_id == old(self).next_id + 1
                },
                Err(RoutingError::NameTooLong) => name@.len() > MAX_ALGORITHM_NAME_LEN
                    && *final(self) == *old(self),
                Err(RoutingError::ValidationError) => name@.len() <= MAX_ALGORITHM_NAME_LEN
                    && !valid_body(body) && *final(self) == *old(self),
                Err(_) => false,
            },
    {
        if name.as_str().unicode_len() > MAX_ALGORITHM_NAME_LEN {
            return Err(RoutingError::NameTooLong);
        }
        if !validate_body(&body) {
            return Err(RoutingError::ValidationError);
        }
        let id = self.next_id;
        let kind = kind_of(&body);
        let entry = DictionaryEntry {
            id,
            scope,
            transaction_type,
            name: name.clone(),
            description: description.clone(),
            created_at: id,
            kind,
        };
        let ghost pre = *self;
        let record = RoutingAlgorithm {
            id,
            scope,
            transaction_type,
            name,
            description,
            created_at: id,
            body,
            status: AlgorithmStatus::Created,
        };
        proof {
            assert(record == created_record(pre, scope, transaction_type, record.name, record.description, record.body));
            assert(entry == entry_of(record));
        }
        self.records.push(record);
        self.dictionary.push(entry);
        self.next_id = id + 1;
        Ok(id)
    }

    /// Retrieves a record by id. Fails `NotFound` when the id is absent or
    /// the record is owned by a scope the caller's scope does not own —
    /// ownership is scope-based, so one merchant can never read another's
    /// configuration.
    pub fn get(&self, scope: Scope, algorithm_id: u64) -> (r: Result<&RoutingAlgorithm, RoutingError>)
        ensures
            ({
                let ri = record_index(self.records@, algorithm_id);
                match r {
                    Ok(rec) => ri >= 0 && *rec == self.records@[ri] && scope.spec_owns(rec.scope),
                    Err(e) => e == RoutingError::NotFound && (ri == -1 || !scope.spec_owns(
                        self.records@[ri].scope,
                    )),
                }
            }),
    {
        match self.find_index(algorithm_id) {
            Some(i) => {
                let rec = &self.records[i];
                if scope.owns(&rec.scope) {
                    Ok(rec)
                } else {
                    Err(RoutingError::NotFound)
                }
            },
            None => Err(RoutingError::NotFound),
        }
    }
}

/// The dictionary entries of one scope and transaction type, in stored
/// (that is, creation) order.
pub open spec fn matching_entries(
    d: Seq<DictionaryEntry>,
    scope: Scope,
    transaction_type: TransactionType,
) -> Seq<DictionaryEntry>
    decreases d.len(),
{
    if d.len() == 0 {
        Seq::empty()
    } else {
        let rest = matching_entries(d.drop_last(), scope, transaction_type);
        if d.last().scope == scope && d.last().transaction_type == transaction_type {
            rest.push(d.last())
        } else {
            rest
        }
    }
}

/// A window of `m` taken newest-first: skip `offset` entries from the end,
/// then take up to `limit`.
pub open spec fn page_of(m: Seq<DictionaryEntry>, offset: int, limit: int) -> Seq<DictionaryEntry> {
    let start = if offset > m.len() { m.len() as int } else { offset };
    let remaining = m.len() - start;
    let count = if limit < remaining { limit } else { remaining };
    Seq::new(count as nat, |k: int| m[m.len() - 1 - start - k])
}

/// What `list` returns: the scope's dictionary entries sorted newest
/// first, windowed by offset and limit.
pub open spec fn list_spec(
    d: Seq<DictionaryEntry>,
    scope: Scope,
    transaction_type: TransactionType,
    offset: int,
    limit: int,
) -> Seq<DictionaryEntry> {
    page_of(matching_entries(d, scope, transaction_type), offset, limit)
}

/// Copies one dictionary entry.
fn clone_entry(e: &DictionaryEntry) -> (r: DictionaryEntry)
    ensures
        r == *e,
{
    DictionaryEntry {
        id: e.id,
        scope: e.scope,
        transaction_type: e.transaction_type,
        name: e.name.clone(),
        description: e.description.clone(),
        created_at: e.created_at,
        kind: e.kind,
    }
}

impl AlgorithmStore {
    /// Lists the dictionary entries of one scope and transaction type,
    /// sorted by creation stamp descending (newest first), skipping
    /// `offset` entries and returning at most `limit`. Bodies are never
    /// touched: the dictionary alone feeds the view.
    #[verifier::loop_isolation(false)]
    pub fn list(
        &self,
        scope: Scope,
        transaction_type: TransactionType,
        offset: usize,
        limit: usize,
    ) -> (r: Vec<DictionaryEntry>)
        ensures
            r@ == list_spec(self.dictionary@, scope, transaction_type, offset as int, limit as int),
    {
        let d = &self.dictionary;
        let n = d.len();
        let mut asc: Vec<DictionaryEntry> = Vec::new();
        let mut i: usize = 0;
        proof {
            assert(d@.subrange(0, 0) =~= Seq::<DictionaryEntry>::empty());
        }
        while i < n
            invariant
                i <= n,
                asc@ == matching_entries(d@.subrange(0, i as int), scope, transaction_type),
            decreases n - i,
        {
            let ghost pre = d@.subrange(0, i as int);
            let ghost cur = d@.subrange(0, i + 1);
            proof {
                assert(cur.drop_last() =~= pre);
                assert(cur.last() == d@[i as int]);
            }
            let e = &d[i];
            if e.scope == scope && e.transaction_type == transaction_type {
                asc.push(clone_entry(e));
            }
            i += 1;
        }
        proof {
            assert(d@.subrange(0, n as int) =~= d@);
        }
        let ghost m = matching_entries(d@, scope, transaction_type);
        let total = asc.len();
        let start = if offset > total {
            total
        } else {
            offset
        };
        let remaining = total - start;
        let count = if limit < remaining {
            limit
        } else {
            remaining
        };
        let mut out: Vec<DictionaryEntry> = Vec::new();
        let mut k: usize = 0;
        while k < count
            invariant
                k <= count,
                out@.len() == k as int,
                forall|t: int| 0 <= t < k ==> out@[t] == m[m.len() - 1 - start - t],
            decreases count - k,
        {
            out.push(clone_entry(&asc[total - 1 - start - k]));
            k += 1;
        }
        proof {
            assert(out@ =~= page_of(m, offset as int, limit as int));
        }
        out
    }
}


/// The create/get round trip: after a successful create, the fresh id
/// finds a record whose name, description, body, scope, transaction type
/// and kind equal the creation inputs exactly, at status `Created`; and
/// the scope's dictionary (which `list` pages newest-first) ends with an
/// entry of the same id, name and kind.
pub proof fn lemma_create_round_trip(
    pre: AlgorithmStore,
    post: AlgorithmStore,
    scope: Scope,
    transaction_type: TransactionType,
    name: String,
    description: String,
    body: AlgorithmBody,
    id: u64,
)
    requires
        store_wf(pre),
        id == pre.next_id,
        post.records@ == pre.records@.push(
            created_record(pre, scope, transaction_type, name, description, body),
        ),
        post.dictionary@ == pre.dictionary@.push(
            entry_of(created_record(pre, scope, transaction_type, name, description, body)),
        ),
    ensures
        ({
            let ri = record_index(post.records@, id);
            &&& ri == pre.records@.len()
            &&& post.records@[ri].name == name
            &&& post.records@[ri].description == description
            &&& post.records@[ri].body == body
            &&& post.records@[ri].scope == scope
            &&& post.records@[ri].transaction_type == transaction_type
            &&& post.records@[ri].status == AlgorithmStatus::Created
        }),
        ({
            let m = matching_entries(post.dictionary@, scope, transaction_type);
            &&& m.len() > 0
            &&& m.last().id == id
            &&& m.last().name == name
            &&& m.last().kind == body_kind(body)
            &&& page_of(m, 0, 1).len() == 1
            &&& page_of(m, 0, 1)[0] == m.last()
        }),
{
    assert forall|j: int| 0 <= j < pre.records@.len() implies !(record_has_id(id))(
        #[trigger] pre.records@[j],
    ) by {
        assert(pre.records@[j].id < pre.next_id);
    }
    crate::search::lemma_first_index_none(pre.records@, record_has_id(id));
    crate::search::lemma_first_index_push(pre.records@, record_has_id(id), post.records@.last());
    assert(post.dictionary@.drop_last() =~= pre.dictionary@);
    let m = matching_entries(post.dictionary@, scope, transaction_type);
    assert(m == matching_entries(pre.dictionary@, scope, transaction_type).push(
        post.dictionary@.last(),
    ));
}


} // verus!
