//! Lookup tables backing the registry's indices.
//!
//! Each table is a vector of entries holding each key at most once, read at
//! the specification level as a mathematical `Map`. `IdMap` keys ids by ids
//! (the assignment and worker indices); `OwnerMap` keys job ids by an
//! (owner, role) pair (the owner index).

use crate::types::{AccountId, JobId, OnwerRole};
use vstd::prelude::*;

verus! {

// ------------------------------------------------------------------
// id -> id tables
// ------------------------------------------------------------------

/// The entries of an id table, read as a mathematical map; a later entry
/// overrides an earlier one with the same key.
pub open spec fn map_of(s: Seq<(u128, u128)>) -> Map<u128, u128>
    decreases s.len(),
{
    if s.len() == 0 {
        Map::empty()
    } else {
        map_of(s.drop_last()).insert(s.last().0, s.last().1)
    }
}

/// No two entries share a key.
pub open spec fn unique_keys(s: Seq<(u128, u128)>) -> bool {
    forall|i: int, j: int|
        0 <= i < s.len() && 0 <= j < s.len() && i != j ==> (#[trigger] s[i]).0 != (
        #[trigger] s[j]).0
}

/// On a table without repeated keys, `map_of` holds a key exactly when some
/// entry holds it, and maps each entry's key to that entry's value.
pub proof fn lemma_map_of_entries(s: Seq<(u128, u128)>)
    requires
        unique_keys(s),
    ensures
        forall|k: u128| #[trigger]
            map_of(s).dom().contains(k) <==> exists|i: int|
                0 <= i < s.len() && (#[trigger] s[i]).0 == k,
        forall|i: int|
            0 <= i < s.len() ==> map_of(s).dom().contains((#[trigger] s[i]).0) && map_of(s)[s[i].0]
                == s[i].1,
    decreases s.len(),
{
    if s.len() > 0 {
        let t = s.drop_last();
        assert(unique_keys(t)) by {
            assert forall|i: int, j: int|
                0 <= i < t.len() && 0 <= j < t.len() && i != j implies (#[trigger] t[i]).0 != (
            #[trigger] t[j]).0 by {
                assert(t[i] == s[i] && t[j] == s[j]);
            }
        }
        lemma_map_of_entries(t);
        assert(s[s.len() - 1] == s.last());
        assert forall|k: u128| #[trigger] map_of(s).dom().contains(k) implies exists|i: int|
            0 <= i < s.len() && (#[trigger] s[i]).0 == k by {
            if k == s.last().0 {
                assert(s[s.len() - 1].0 == k);
            } else {
                assert(map_of(s) == map_of(t).insert(s.last().0, s.last().1));
                assert(map_of(t).dom().contains(k));
                let i = choose|i: int| 0 <= i < t.len() && (#[trigger] t[i]).0 == k;
                assert(t[i] == s[i]);
                assert(s[i].0 == k);
            }
        }
        assert forall|i: int| 0 <= i < s.len() implies map_of(s).dom().contains(
            (#[trigger] s[i]).0,
        ) && map_of(s)[s[i].0] == s[i].1 by {
            if i < s.len() - 1 {
                assert(t[i] == s[i]);
                assert(map_of(t).dom().contains(t[i].0) && map_of(t)[t[i].0] == t[i].1);
                assert(s[i].0 != s.last().0);
            }
        }
    }
}

/// Assignment and worker index: a finite map from ids to ids with point
/// get, insert and remove.
pub struct IdMap {
    entries: Vec<(u128, u128)>,
}

impl View for IdMap {
    type V = Map<u128, u128>;

    closed spec fn view(&self) -> Map<u128, u128> {
        map_of(self.entries@)
    }
}

impl IdMap {
    /// The table holds each key at most once.
    pub closed spec fn wf(&self) -> bool {
        unique_keys(self.entries@)
    }

    /// An empty table.
    pub fn new() -> (r: IdMap)
        ensures
            r.wf(),
            r@ == Map::<u128, u128>::empty(),
    {
        IdMap { entries: Vec::new() }
    }

    /// Point lookup.
    pub fn get(&self, k: u128) -> (r: Option<u128>)
        requires
            self.wf(),
        ensures
            r == if self@.dom().contains(k) {
                Some(self@[k])
            } else {
                None::<u128>
            },
    {
        proof {
            lemma_map_of_entries(self.entries@);
        }
        let n = self.entries.len();
        let mut i: usize = 0;
        while i < n
            invariant
                n == self.entries@.len(),
                i <= n,
                unique_keys(self.entries@),
                self@ == map_of(self.entries@),
                forall|j: int| 0 <= j < i ==> (#[trigger] self.entries@[j]).0 != k,
            decreases n - i,
        {
            if self.entries[i].0 == k {
                proof {
                    lemma_map_of_entries(self.entries@);
                }
                return Some(self.entries[i].1);
            }
            i += 1;
        }
        proof {
            lemma_map_of_entries(self.entries@);
        }
        None
    }

    /// Insert a binding for a key not yet present.
    pub fn insert(&mut self, k: u128, v: u128)
        requires
            old(self).wf(),
            !old(self)@.dom().contains(k),
        ensures
            final(self).wf(),
            final(self)@ == old(self)@.insert(k, v),
    {
        proof {
            lemma_map_of_entries(self.entries@);
        }
        let ghost s0 = self.entries@;
        self.entries.push((k, v));
        proof {
            assert(self.entries@.drop_last() =~= s0);
            assert forall|i: int, j: int|
                0 <= i < self.entries@.len() && 0 <= j < self.entries@.len() && i != j implies (
            #[trigger] self.entries@[i]).0 != (#[trigger] self.entries@[j]).0 by {
                if i < s0.len() && j < s0.len() {
                    assert(s0[i] == self.entries@[i] && s0[j] == self.entries@[j]);
                } else if i == s0.len() {
                    assert(s0[j] == self.entries@[j]);
                } else {
                    assert(s0[i] == self.entries@[i]);
                }
            }
        }
    }

    /// Remove the binding for a key, if any.
    pub fn remove(&mut self, k: u128)
        requires
            old(self).wf(),
        ensures
            final(self).wf(),
            final(self)@ == old(self)@.remove(k),
    {
        proof {
            lemma_map_of_entries(self.entries@);
        }
        let ghost s0 = self.entries@;
        let n = self.entries.len();
        let mut i: usize = 0;
        while i < n
            invariant
                n == self.entries@.len(),
                i <= n,
                self.entries@ == s0,
                s0 == old(self).entries@,
                unique_keys(s0),
                forall|j: int| 0 <= j < i ==> (#[trigger] s0[j]).0 != k,
            decreases n - i,
        {
            if self.entries[i].0 == k {
                self.entries.remove(i);
                proof {
                    lemma_remove_entry(s0, i as int, k);
                }
                return ;
            }
            i += 1;
        }
        proof {
            lemma_map_of_entries(s0);
            assert(map_of(s0).remove(k) =~= map_of(s0));
        }
    }
}

/// Removing the one entry that holds a key removes exactly that key from the
/// map reading of the table.
proof fn lemma_remove_entry(s: Seq<(u128, u128)>, i: int, k: u128)
    requires
        unique_keys(s),
        0 <= i < s.len(),
        s[i].0 == k,
    ensures
        unique_keys(s.remove(i)),
        map_of(s.remove(i)) == map_of(s).remove(k),
{
    let t = s.remove(i);
    s.remove_ensures(i);
    assert forall|a: int, b: int|
        0 <= a < t.len() && 0 <= b < t.len() && a != b implies (#[trigger] t[a]).0 != (
    #[trigger] t[b]).0 by {
        let a0 = if a < i { a } else { a + 1 };
        let b0 = if b < i { b } else { b + 1 };
        assert(t[a] == s[a0] && t[b] == s[b0]);
    }
    lemma_map_of_entries(s);
    lemma_map_of_entries(t);
    assert forall|k2: u128| #[trigger]
        map_of(t).dom().contains(k2) == map_of(s).remove(k).dom().contains(k2) && (map_of(
        s,
    ).remove(k).dom().contains(k2) ==> map_of(t)[k2] == map_of(s).remove(k)[k2]) by {
        if map_of(t).dom().contains(k2) {
            let a = choose|a: int| 0 <= a < t.len() && (#[trigger] t[a]).0 == k2;
            let a0 = if a < i { a } else { a + 1 };
            assert(t[a] == s[a0]);
            assert(k2 != k);
            assert(map_of(s).dom().contains(k2) && map_of(s)[k2] == s[a0].1);
            assert(map_of(t)[k2] == t[a].1);
        }
        if map_of(s).dom().contains(k2) && k2 != k {
            let a0 = choose|a0: int| 0 <= a0 < s.len() && (#[trigger] s[a0]).0 == k2;
            assert(a0 != i);
            let a = if a0 < i { a0 } else { a0 - 1 };
            assert(t[a] == s[a0]);
            assert(map_of(t).dom().contains(k2));
        }
    }
    assert(map_of(t) =~= map_of(s).remove(k));
}

// ------------------------------------------------------------------
// (owner, role) -> id table
// ------------------------------------------------------------------

/// The (owner, role) key of an owner-table entry.
pub open spec fn entry_key(e: (AccountId, OnwerRole, JobId)) -> (AccountId, OnwerRole) {
    (e.0, e.1)
}

/// The entries of an owner table, read as a mathematical map; a later entry
/// overrides an earlier one with the same key.
pub open spec fn owner_map_of(s: Seq<(AccountId, OnwerRole, JobId)>) -> Map<
    (AccountId, OnwerRole),
    JobId,
>
    decreases s.len(),
{
    if s.len() == 0 {
        Map::empty()
    } else {
        owner_map_of(s.drop_last()).insert(entry_key(s.last()), s.last().2)
    }
}

/// No two entries share an (owner, role) key.
pub open spec fn unique_owner_keys(s: Seq<(AccountId, OnwerRole, JobId)>) -> bool {
    forall|i: int, j: int|
        0 <= i < s.len() && 0 <= j < s.len() && i != j ==> entry_key(#[trigger] s[i]) != entry_key(
            #[trigger] s[j],
        )
}

/// On a table without repeated keys, `owner_map_of` holds a key exactly
/// when some entry holds it, and maps each entry's key to that entry's id.
pub proof fn lemma_owner_map_of_entries(s: Seq<(AccountId, OnwerRole, JobId)>)
    requires
        unique_owner_keys(s),
    ensures
        forall|k: (AccountId, OnwerRole)| #[trigger]
            owner_map_of(s).dom().contains(k) <==> exists|i: int|
                0 <= i < s.len() && entry_key(#[trigger] s[i]) == k,
        forall|i: int|
            0 <= i < s.len() ==> owner_map_of(s).dom().contains(entry_key(#[trigger] s[i]))
                && owner_map_of(s)[entry_key(s[i])] == s[i].2,
    decreases s.len(),
{
    if s.len() > 0 {
        let t = s.drop_last();
        assert(unique_owner_keys(t)) by {
            assert forall|i: int, j: int|
                0 <= i < t.len() && 0 <= j < t.len() && i != j implies entry_key(
                #[trigger] t[i],
            ) != entry_key(#[trigger] t[j]) by {
                assert(t[i] == s[i] && t[j] == s[j]);
            }
        }
        lemma_owner_map_of_entries(t);
        assert(s[s.len() - 1] == s.last());
        assert forall|k: (AccountId, OnwerRole)| #[trigger]
            owner_map_of(s).dom().contains(k) implies exists|i: int|
            0 <= i < s.len() && entry_key(#[trigger] s[i]) == k by {
            if k == entry_key(s.last()) {
                assert(entry_key(s[s.len() - 1]) == k);
            } else {
                assert(owner_map_of(s) == owner_map_of(t).insert(entry_key(s.last()), s.last().2));
                assert(owner_map_of(t).dom().contains(k));
                let i = choose|i: int| 0 <= i < t.len() && entry_key(#[trigger] t[i]) == k;
                assert(t[i] == s[i]);
                assert(entry_key(s[i]) == k);
            }
        }
        assert forall|i: int| 0 <= i < s.len() implies owner_map_of(s).dom().contains(
            entry_key(#[trigger] s[i]),
        ) && owner_map_of(s)[entry_key(s[i])] == s[i].2 by {
            if i < s.len() - 1 {
                assert(t[i] == s[i]);
                assert(owner_map_of(t).dom().contains(entry_key(t[i])) && owner_map_of(
                    t,
                )[entry_key(t[i])] == t[i].2);
                assert(entry_key(s[i]) != entry_key(s.last()));
            }
        }
    }
}

/// Owner index: a finite map from (owner, role) pairs to job ids with
/// point get, insert and remove.
pub struct OwnerMap {
    entries: Vec<(AccountId, OnwerRole, JobId)>,
}

impl View for OwnerMap {
    type V = Map<(AccountId, OnwerRole), JobId>;

    closed spec fn view(&self) -> Map<(AccountId, OnwerRole), JobId> {
        owner_map_of(self.entries@)
    }
}

impl OwnerMap {
    /// The table holds each (owner, role) key at most once.
    pub closed spec fn wf(&self) -> bool {
        unique_owner_keys(self.entries@)
    }

    /// An empty table.
    pub fn new() -> (r: OwnerMap)
        ensures
            r.wf(),
            r@ == Map::<(AccountId, OnwerRole), JobId>::empty(),
    {
        OwnerMap { entries: Vec::new() }
    }

    /// Point lookup.
    pub fn get(&self, owner: AccountId, role: OnwerRole) -> (r: Option<JobId>)
        requires
            self.wf(),
        ensures
            r == if self@.dom().contains((owner, role)) {
                Some(self@[(owner, role)])
            } else {
                None::<JobId>
            },
    {
        proof {
            lemma_owner_map_of_entries(self.entries@);
        }
        let n = self.entries.len();
        let mut i: usize = 0;
        while i < n
            invariant
                n == self.entries@.len(),
                i <= n,
                unique_owner_keys(self.entries@),
                self@ == owner_map_of(self.entries@),
                forall|j: int| 0 <= j < i ==> entry_key(#[trigger] self.entries@[j]) != (
                    owner,
                    role,
                ),
            decreases n - i,
        {
            if self.entries[i].0 == owner && self.entries[i].1 == role {
                proof {
                    lemma_owner_map_of_entries(self.entries@);
                }
                return Some(self.entries[i].2);
            }
            i += 1;
        }
        proof {
            lemma_owner_map_of_entries(self.entries@);
        }
        None
    }

    /// Insert a binding for a key not yet present.
    pub fn insert(&mut self, owner: AccountId, role: OnwerRole, job: JobId)
        requires
            old(self).wf(),
            !old(self)@.dom().contains((owner, role)),
        ensures
            final(self).wf(),
            final(self)@ == old(self)@.insert((owner, role), job),
    {
        proof {
            lemma_owner_map_of_entries(self.entries@);
        }
        let ghost s0 = self.entries@;
        self.entries.push((owner, role, job));
        proof {
            assert(self.entries@.drop_last() =~= s0);
            assert forall|i: int, j: int|
                0 <= i < self.entries@.len() && 0 <= j < self.entries@.len() && i != j implies
                entry_key(#[trigger] self.entries@[i]) != entry_key(#[trigger] self.entries@[j]) by {
                if i < s0.len() && j < s0.len() {
                    assert(s0[i] == self.entries@[i] && s0[j] == self.entries@[j]);
                } else if i == s0.len() {
                    assert(s0[j] == self.entries@[j]);
                } else {
                    assert(s0[i] == self.entries@[i]);
                }
            }
        }
    }

    /// Remove the binding for a key, if any.
    pub fn remove(&mut self, owner: AccountId, role: OnwerRole)
        requires
            old(self).wf(),
        ensures
            final(self).wf(),
            final(self)@ == old(self)@.remove((owner, role)),
    {
        proof {
            lemma_owner_map_of_entries(self.entries@);
        }
        let ghost s0 = self.entries@;
        let n = self.entries.len();
        let mut i: usize = 0;
        while i < n
            invariant
                n == self.entries@.len(),
                i <= n,
                self.entries@ == s0,
                s0 == old(self).entries@,
                unique_owner_keys(s0),
                forall|j: int| 0 <= j < i ==> entry_key(#[trigger] s0[j]) != (owner, role),
            decreases n - i,
        {
            if self.entries[i].0 == owner && self.entries[i].1 == role {
                self.entries.remove(i);
                proof {
                    lemma_owner_remove_entry(s0, i as int, (owner, role));
                }
                return ;
            }
            i += 1;
        }
        proof {
            lemma_owner_map_of_entries(s0);
            assert(owner_map_of(s0).remove((owner, role)) =~= owner_map_of(s0));
        }
    }
}

/// Removing the one entry that holds a key removes exactly that key from
/// the map reading of the table.
proof fn lemma_owner_remove_entry(
    s: Seq<(AccountId, OnwerRole, JobId)>,
    i: int,
    k: (AccountId, OnwerRole),
)
    requires
        unique_owner_keys(s),
        0 <= i < s.len(),
        entry_key(s[i]) == k,
    ensures
        unique_owner_keys(s.remove(i)),
        owner_map_of(s.remove(i)) == owner_map_of(s).remove(k),
{
    let t = s.remove(i);
    s.remove_ensures(i);
    assert forall|a: int, b: int|
        0 <= a < t.len() && 0 <= b < t.len() && a != b implies entry_key(#[trigger] t[a])
        != entry_key(#[trigger] t[b]) by {
        let a0 = if a < i { a } else { a + 1 };
        let b0 = if b < i { b } else { b + 1 };
        assert(t[a] == s[a0] && t[b] == s[b0]);
    }
    lemma_owner_map_of_entries(s);
    lemma_owner_map_of_entries(t);
    assert forall|k2: (AccountId, OnwerRole)| #[trigger]
        owner_map_of(t).dom().contains(k2) == owner_map_of(s).remove(k).dom().contains(k2) && (
    owner_map_of(s).remove(k).dom().contains(k2) ==> owner_map_of(t)[k2] == owner_map_of(s).remove(
        k,
    )[k2]) by {
        if owner_map_of(t).dom().contains(k2) {
            let a = choose|a: int| 0 <= a < t.len() && entry_key(#[trigger] t[a]) == k2;
            let a0 = if a < i { a } else { a + 1 };
            assert(t[a] == s[a0]);
            assert(k2 != k);
            assert(owner_map_of(s).dom().contains(k2) && owner_map_of(s)[k2] == s[a0].2);
            assert(owner_map_of(t)[k2] == t[a].2);
        }
        if owner_map_of(s).dom().contains(k2) && k2 != k {
            let a0 = choose|a0: int| 0 <= a0 < s.len() && entry_key(#[trigger] s[a0]) == k2;
            assert(a0 != i);
            let a = if a0 < i { a0 } else { a0 - 1 };
            assert(t[a] == s[a0]);
            assert(owner_map_of(t).dom().contains(k2));
        }
    }
    assert(owner_map_of(t) =~= owner_map_of(s).remove(k));
}

} // verus!
