use vstd::prelude::*;

verus! {

/// One ledger entry: the score recorded for an `(address, token)` key.
pub struct ScoreRecord {
    pub address: String,
    pub token: String,
    pub score: i32,
}

/// The key of a record, as a pair of character sequences.
pub closed spec fn record_key(r: ScoreRecord) -> (Seq<char>, Seq<char>) {
    (r.address@, r.token@)
}

/// The score a sequence of records associates with key `k`: the score of the
/// earliest record whose key is `k`, or `None` if no record has that key.
/// Overwrites happen in place, so the earliest record for a key is the
/// current one.
pub closed spec fn record_lookup(s: Seq<ScoreRecord>, k: (Seq<char>, Seq<char>)) -> Option<int>
    decreases s.len(),
{
    if s.len() == 0 {
        None
    } else if record_key(s.first()) == k {
        Some(s.first().score as int)
    } else {
        record_lookup(s.drop_first(), k)
    }
}

/// The partial map from `(address, token)` keys to scores that a sequence of
/// records denotes.
pub closed spec fn ledger_view(s: Seq<ScoreRecord>) -> Map<(Seq<char>, Seq<char>), int> {
    Map::new(
        |k: (Seq<char>, Seq<char>)| record_lookup(s, k) is Some,
        |k: (Seq<char>, Seq<char>)| record_lookup(s, k)->Some_0,
    )
}

/// No two records in the sequence share a key.
pub closed spec fn unique_keys(s: Seq<ScoreRecord>) -> bool {
    forall|i: int, j: int|
        0 <= i < j < s.len() ==> #[trigger] record_key(s[i]) != #[trigger] record_key(s[j])
}

/// Finds the position of the first record whose key is `(address@, token@)`,
/// if any record has that key.
fn find_index(records: &Vec<ScoreRecord>, address: &String, token: &String) -> (r: Option<usize>)
    ensures
        match r {
            Some(i) => i < records@.len() && record_key(records@[i as int]) == (address@, token@)
                && (forall|j: int|
                0 <= j < i ==> record_key(records@[j]) != (address@, token@)),
            None => forall|j: int|
                0 <= j < records@.len() ==> record_key(records@[j]) != (address@, token@),
        },
{
    let ghost k = (address@, token@);
    let mut i: usize = 0;
    while i < records.len()
        invariant
            i <= records@.len(),
            k == (address@, token@),
            forall|j: int| 0 <= j < i ==> record_key(records@[j]) != k,
        decreases records@.len() - i,
    {
        if records[i].address == *address && records[i].token == *token {
            return Some(i);
        }
        i += 1;
    }
    None
}

/// A record whose key matches `k` and is preceded by no other match decides
/// the lookup for `k`.
proof fn lemma_lookup_first_match(s: Seq<ScoreRecord>, i: int, k: (Seq<char>, Seq<char>))
    requires
        0 <= i < s.len(),
        record_key(s[i]) == k,
        forall|j: int| 0 <= j < i ==> record_key(s[j]) != k,
    ensures
        record_lookup(s, k) == Some(s[i].score as int),
    decreases i,
{
    if i == 0 {
        assert(s.first() == s[0]);
    } else {
        assert(record_key(s[0]) != k);
        assert(s.first() == s[0]);
        assert(forall|j: int| 0 <= j < i - 1 ==> record_key(s.drop_first()[j]) != k);
        lemma_lookup_first_match(s.drop_first(), i - 1, k);
    }
}

/// A key matched by no record looks up to nothing.
proof fn lemma_lookup_absent(s: Seq<ScoreRecord>, k: (Seq<char>, Seq<char>))
    requires
        forall|j: int| 0 <= j < s.len() ==> record_key(s[j]) != k,
    ensures
        record_lookup(s, k) is None,
    decreases s.len(),
{
    if s.len() > 0 {
        assert(s.first() == s[0]);
        lemma_lookup_absent(s.drop_first(), k);
    }
}

/// Replacing a record does not change the lookup of a key that matches
/// neither the old record at that position nor the new one.
proof fn lemma_lookup_update_other(
    s: Seq<ScoreRecord>,
    i: int,
    r: ScoreRecord,
    k: (Seq<char>, Seq<char>),
)
    requires
        0 <= i < s.len(),
        record_key(s[i]) != k,
        record_key(r) != k,
    ensures
        record_lookup(s.update(i, r), k) == record_lookup(s, k),
    decreases i,
{
    let t = s.update(i, r);
    if i == 0 {
        assert(t.first() == r);
        assert(s.first() == s[0]);
        assert(t.drop_first() =~= s.drop_first());
    } else {
        assert(t.first() == s[0]);
        assert(s.first() == s[0]);
        assert(t.drop_first() =~= s.drop_first().update(i - 1, r));
        if record_key(s[0]) != k {
            lemma_lookup_update_other(s.drop_first(), i - 1, r, k);
        }
    }
}

/// Appending a record does not change the lookup of any other key.
proof fn lemma_lookup_push_other(s: Seq<ScoreRecord>, r: ScoreRecord, k: (Seq<char>, Seq<char>))
    requires
        record_key(r) != k,
    ensures
        record_lookup(s.push(r), k) == record_lookup(s, k),
    decreases s.len(),
{
    let t = s.push(r);
    if s.len() == 0 {
        assert(t.first() == r);
        assert(t.drop_first() =~= s);
    } else {
        assert(t.first() == s[0]);
        assert(s.first() == s[0]);
        assert(t.drop_first() =~= s.drop_first().push(r));
        if record_key(s[0]) != k {
            lemma_lookup_push_other(s.drop_first(), r, k);
        }
    }
}

/// The contract state: the owner record and the score ledger, as a plain
/// value that the host persists between calls.
pub struct Store {
    owner: Option<String>,
    records: Vec<ScoreRecord>,
}

impl Store {
    /// The stored owner identity, or `None` before initialization.
    pub closed spec fn owner_view(self) -> Option<Seq<char>> {
        match self.owner {
            Some(o) => Some(o@),
            None => None,
        }
    }

    /// The ledger as a map from `(address, token)` keys to scores.
    pub closed spec fn scores(self) -> Map<(Seq<char>, Seq<char>), int> {
        ledger_view(self.records@)
    }

    /// Well-formedness: each key owns at most one record, so the ledger keeps
    /// no history of overwritten scores.
    pub closed spec fn wf(self) -> bool {
        unique_keys(self.records@)
    }

    /// A fresh store: no owner, no scores.
    pub fn new() -> (r: Store)
        ensures
            r.owner_view() is None,
            r.scores() == Map::<(Seq<char>, Seq<char>), int>::empty(),
            r.wf(),
    {
        let r = Store { owner: None, records: Vec::new() };
        proof {
            assert(r.scores() =~= Map::<(Seq<char>, Seq<char>), int>::empty());
        }
        r
    }

    /// Persists the owner record. The write is unconditional: the host is
    /// expected to call this exactly once per contract lifetime, and no
    /// pre-existence check is made here.
    pub fn initialize(&mut self, owner: String)
        ensures
            final(self).owner_view() == Some(owner@),
            final(self).scores() == old(self).scores(),
            final(self).wf() == old(self).wf(),
    {
        self.owner = Some(owner);
    }

    /// Records `score` under the `(address, token)` key, provided `caller`
    /// is the stored owner. An existing entry for the key is overwritten in
    /// place; a new key gets a fresh entry. On any failure the store is left
    /// exactly as it was: `Unauthorized` when `caller` differs from the
    /// owner, `NotFound` when no owner was ever initialized.
    pub fn set_score(
        &mut self,
        address: String,
        token: String,
        score: i32,
        caller: &String,
    ) -> (r: Result<(), crate::error::ContractError>)
        ensures
            final(self).owner_view() == old(self).owner_view(),
            old(self).wf() ==> final(self).wf(),
            match old(self).owner_view() {
                None => r == Err::<(), _>(crate::error::ContractError::NotFound)
                    && *final(self) == *old(self),
                Some(o) => if o == caller@ {
                    r == Ok::<(), crate::error::ContractError>(())
                        && final(self).scores() == old(self).scores().insert(
                        (address@, token@),
                        score as int,
                    )
                } else {
                    r == Err::<(), _>(crate::error::ContractError::Unauthorized)
                        && *final(self) == *old(self)
                },
            },
    {
        if self.owner.is_none() {
            return Err(crate::error::ContractError::NotFound);
        }
        let authorized = match &self.owner {
            Some(o) => crate::auth::check(caller, o),
            None => false,
        };
        if !authorized {
            return Err(crate::error::ContractError::Unauthorized);
        }
        let ghost k = (address@, token@);
        let ghost s0 = self.records@;
        match find_index(&self.records, &address, &token) {
            Some(i) => {
                self.records[i] = (ScoreRecord { address, token, score });
                proof {
                    let s1 = self.records@;
                    let r = s1[i as int];
                    assert(s1 == s0.update(i as int, r));
                    assert(record_key(r) == k);
                    assert(record_key(s0[i as int]) == k);
                    assert(forall|j: int| 0 <= j < i ==> record_key(s1[j]) != k);
                    lemma_lookup_first_match(s1, i as int, k);
                    assert forall|k2: (Seq<char>, Seq<char>)| k2 != k implies record_lookup(
                        s1,
                        k2,
                    ) == record_lookup(s0, k2) by {
                        lemma_lookup_update_other(s0, i as int, r, k2);
                    }
                    assert(ledger_view(s1) =~= ledger_view(s0).insert(k, score as int));
                    assert forall|m: int| 0 <= m < s1.len() implies #[trigger] record_key(s1[m])
                        == record_key(s0[m]) by {}
                    assert(unique_keys(s0) ==> unique_keys(s1));
                }
                Ok(())
            },
            None => {
                self.records.push(ScoreRecord { address, token, score });
                proof {
                    let s1 = self.records@;
                    let r = s1[s0.len() as int];
                    assert(s1 == s0.push(r));
                    assert(record_key(r) == k);
                    assert(forall|j: int| 0 <= j < s0.len() ==> record_key(s1[j]) != k);
                    lemma_lookup_first_match(s1, s0.len() as int, k);
                    assert forall|k2: (Seq<char>, Seq<char>)| k2 != k implies record_lookup(
                        s1,
                        k2,
                    ) == record_lookup(s0, k2) by {
                        lemma_lookup_push_other(s0, r, k2);
                    }
                    assert(ledger_view(s1) =~= ledger_view(s0).insert(k, score as int));
                    assert(unique_keys(s0) ==> unique_keys(s1));
                }
                Ok(())
            },
        }
    }

    /// Returns the score stored under the `(address, token)` key, or
    /// `NotFound` if that key was never written. A pure read: the store is
    /// not changed.
    pub fn get_score(&self, address: &String, token: &String) -> (r: Result<
        i32,
        crate::error::ContractError,
    >)
        ensures
            if self.scores().contains_key((address@, token@)) {
                r is Ok && r->Ok_0 as int == self.scores()[(address@, token@)]
            } else {
                r == Err::<i32, _>(crate::error::ContractError::NotFound)
            },
    {
        let ghost k = (address@, token@);
        match find_index(&self.records, address, token) {
            Some(i) => {
                proof {
                    lemma_lookup_first_match(self.records@, i as int, k);
                }
                Ok(self.records[i].score)
            },
            None => {
                proof {
                    lemma_lookup_absent(self.records@, k);
                }
                Err(crate::error::ContractError::NotFound)
            },
        }
    }

    /// Copies the state out as plain parts, for a host that persists it
    /// between calls. The parts denote exactly the owner record and the
    /// ledger of this store.
    pub fn to_parts(&self) -> (r: (Option<String>, Vec<ScoreRecord>))
        ensures
            (match r.0 {
                Some(o) => Some(o@),
                None => None::<Seq<char>>,
            }) == self.owner_view(),
            ledger_view(r.1@) == self.scores(),
            unique_keys(r.1@) == self.wf(),
    {
        let owner: Option<String> = match &self.owner {
            Some(o) => Some(o.clone()),
            None => None,
        };
        let mut records: Vec<ScoreRecord> = Vec::new();
        let mut i: usize = 0;
        while i < self.records.len()
            invariant
                i <= self.records@.len(),
                records@.len() == i,
                forall|j: int| 0 <= j < i ==> records@[j] == self.records@[j],
            decreases self.records@.len() - i,
        {
            records.push(
                ScoreRecord {
                    address: self.records[i].address.clone(),
                    token: self.records[i].token.clone(),
                    score: self.records[i].score,
                },
            );
            i += 1;
        }
        proof {
            assert(records@ =~= self.records@);
        }
        (owner, records)
    }

    /// Rebuilds a store from parts a host read back from durable storage.
    /// The store then denotes exactly the owner record and ledger the parts
    /// denote; it is well-formed exactly when no key is repeated in the
    /// records.
    pub fn from_parts(owner: Option<String>, records: Vec<ScoreRecord>) -> (r: Store)
        ensures
            r.owner_view() == (match owner {
                Some(o) => Some(o@),
                None => None::<Seq<char>>,
            }),
            r.scores() == ledger_view(records@),
            r.wf() == unique_keys(records@),
    {
        Store { owner, records }
    }

    /// Returns the stored owner identity, or `NotFound` before
    /// initialization.
    pub fn get_owner(&self) -> (r: Result<String, crate::error::ContractError>)
        ensures
            match self.owner_view() {
                Some(o) => r is Ok && r->Ok_0@ == o,
                None => r == Err::<String, _>(crate::error::ContractError::NotFound),
            },
    {
        match &self.owner {
            Some(o) => Ok(o.clone()),
            None => Err(crate::error::ContractError::NotFound),
        }
    }
}

} // verus!
